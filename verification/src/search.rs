//! The searcher: seeded chaos runs, one per round, until one matches the
//! criterion.

use rand::Rng;
use rand::SeedableRng;
use vstd::prelude::*;

use crate::opts::AnalyzeError;
use crate::opts::AnalyzeOpts;
use crate::opts::RunRequest;
use crate::opts::spec_artifact_path;
use crate::render::spec_u64_dec3;
use crate::render::u64_to_dec3;
use crate::runopts::DriverModel;
use crate::runopts::ReplayDriver;
use crate::runopts::RunOptionsModel;
use vstd::string::StringExecFns;

verus! {

#[verifier::external_type_specification]
#[verifier::external_body]
pub struct ExPcg(rand_pcg::Pcg64Mcg);

/// Relies on rand::random: a seed drawn from the thread-local generator.
/// Nothing is promised of a machine-entropy value.
#[verifier::external_body]
fn entropy_seed() -> u64 {
    rand::random::<u64>()
}

/// Relies on Pcg64Mcg::seed_from_u64 (rand_core::SeedableRng): the generator
/// state built from a seed.
#[verifier::external_body]
fn pcg_from_seed(seed: u64) -> rand_pcg::Pcg64Mcg {
    rand_pcg::Pcg64Mcg::seed_from_u64(seed)
}

/// Relies on Rng::next_u64 for Pcg64Mcg: the generator's next output.
/// Nothing is promised of the value; the search is correct for every
/// sequence of seeds.
#[verifier::external_body]
fn pcg_next(rng: &mut rand_pcg::Pcg64Mcg) -> u64 {
    Rng::next_u64(rng)
}

/// State of a failure search: the seeded pseudorandom source of chaos seeds
/// and the current round.
pub struct SearchState {
    pub rng: rand_pcg::Pcg64Mcg,
    pub search_seed: u64,
    pub round: u64,
}

impl SearchState {
    /// The chaos seed for the current round.
    pub fn next_sched_seed(&mut self) -> u64 {
        pcg_next(&mut self.rng)
    }

    /// A round ended without a match: move to the next one.
    pub fn record_miss(&mut self)
        requires
            old(self).round < u64::MAX,
        ensures
            final(self).round == old(self).round + 1,
            final(self).search_seed == old(self).search_seed,
    {
        self.round = self.round + 1;
    }
}

impl AnalyzeOpts {
    /// Begin a failure search, seeded by the analyzer seed when one was
    /// given and from machine entropy otherwise.
    pub fn do_search_start(&self) -> (st: SearchState)
        ensures
            st.round == 0,
            self.analyze_seed matches Some(s) ==> st.search_seed == s,
    {
        let search_seed = match self.analyze_seed {
            Option::Some(s) => s,
            Option::None => entropy_seed(),
        };
        SearchState { rng: pcg_from_seed(search_seed), search_seed, round: 0 }
    }

    /// Build one search round: a chaos run under the round's seed that
    /// records its preemptions.  Returns the request and the preemption
    /// path the round records to.
    pub fn launch_search(&self, round: u64, sched_seed: u64) -> (r: Result<
        (RunRequest, String),
        AnalyzeError,
    >)
        requires
            self.tmp_dir is Some,
        ensures
            r is Ok <==> self.run_options.sequentialize_threads,
            r matches Ok(p) ==> {
                &&& p.0.runname@ == "search_round_"@ + spec_u64_dec3(round as nat)
                &&& p.1@ == spec_artifact_path(
                    self.tmp_dir->0@,
                    "search_round_"@ + spec_u64_dec3(round as nat),
                    "preempts"@,
                )
                &&& p.0.options@ == (RunOptionsModel {
                    driver: match self.spec_base_runopts().driver {
                        DriverModel::Chaos { seed, .. } => DriverModel::Chaos {
                            seed,
                            sched_seed: Option::Some(sched_seed),
                        },
                        d => d,
                    },
                    record_preemptions: true,
                    record_preemptions_to: Option::Some(p.1@),
                    imprecise_timers: self.spec_base_runopts().imprecise_timers
                        || self.imprecise_search,
                    ..self.spec_base_runopts()
                })
            },
            r matches Err(e) ==> e == AnalyzeError::NoSequentializeThreads,
    {
        let mut ro = match self.get_base_runopts() {
            Ok(ro) => ro,
            Err(e) => {
                return Err(e);
            },
        };
        let mut runname = String::new();
        runname.append("search_round_");
        let d = u64_to_dec3(round);
        runname.append(d.as_str());
        let preempts_path = self.preempts_path(runname.as_str());
        match &ro.driver {
            ReplayDriver::Chaos { seed, .. } => {
                let s = *seed;
                ro.driver = ReplayDriver::Chaos { seed: s, sched_seed: Option::Some(sched_seed) };
            },
            _ => {},
        }
        ro.record_preemptions = true;
        ro.record_preemptions_to = Option::Some(preempts_path.clone());
        if self.imprecise_search {
            ro.imprecise_timers = true;
        }
        Ok((RunRequest { runname, options: ro }, preempts_path))
    }

    /// Decide one search round: only a matching round yields the preemption
    /// file, and the search stops exactly there.
    pub fn search_round_decide(&self, matched: bool, preempts_path: String) -> (r: Option<String>)
        ensures
            r is Some <==> matched,
            r matches Some(p) ==> p@ == preempts_path@,
    {
        if matched {
            Option::Some(preempts_path)
        } else {
            Option::None
        }
    }
}

} // verus!
