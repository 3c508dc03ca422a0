//! The on-disk form of a preemption record: a self-describing byte format
//! (version word, then the thread entries, then the schedule trace) with a
//! proved load/write round trip.

use vstd::bytes::spec_u64_from_le_bytes;
use vstd::bytes::spec_u64_to_le_bytes;
use vstd::bytes::lemma_auto_spec_u64_to_from_le_bytes;
use vstd::bytes::u64_from_le_bytes;
use vstd::bytes::u64_to_le_bytes;
use vstd::prelude::*;
use vstd::slice::slice_subrange;

use crate::record::Directive;
use crate::record::PreemptionRecord;
use crate::record::RecordModel;
use crate::record::SchedEvent;
use crate::record::ThreadDirectives;
use crate::record::ThreadModel;

verus! {

/// Version word that starts every record file.
pub const FORMAT_VERSION: u64 = 1;

/// One 64-bit word, little endian.
pub open spec fn enc64(x: u64) -> Seq<u8> {
    spec_u64_to_le_bytes(x)
}

/// One directive: event index, then a preemption flag word.
pub open spec fn enc_dir(d: Directive) -> Seq<u8> {
    enc64(d.index) + enc64(
        if d.preemptive {
            1u64
        } else {
            0u64
        },
    )
}

pub open spec fn enc_dirs(ds: Seq<Directive>) -> Seq<u8>
    decreases ds.len(),
{
    if ds.len() == 0 {
        Seq::empty()
    } else {
        enc_dirs(ds.drop_last()) + enc_dir(ds.last())
    }
}

/// One thread entry: thread id, directive count, then the directives.
pub open spec fn enc_thread(t: ThreadModel) -> Seq<u8> {
    enc64(t.tid) + enc64(t.dirs.len() as u64) + enc_dirs(t.dirs)
}

pub open spec fn enc_threads(ts: Seq<ThreadModel>) -> Seq<u8>
    decreases ts.len(),
{
    if ts.len() == 0 {
        Seq::empty()
    } else {
        enc_threads(ts.drop_last()) + enc_thread(ts.last())
    }
}

/// One schedule event: thread id, then operation index.
pub open spec fn enc_event(e: SchedEvent) -> Seq<u8> {
    enc64(e.tid) + enc64(e.op)
}

pub open spec fn enc_events(es: Seq<SchedEvent>) -> Seq<u8>
    decreases es.len(),
{
    if es.len() == 0 {
        Seq::empty()
    } else {
        enc_events(es.drop_last()) + enc_event(es.last())
    }
}

/// The whole file: version, thread count, threads, event count, events.
pub open spec fn spec_encode(m: RecordModel) -> Seq<u8> {
    enc64(FORMAT_VERSION) + enc64(m.threads.len() as u64) + enc_threads(m.threads) + enc64(
        m.events.len() as u64,
    ) + enc_events(m.events)
}

/// The counts of a model all fit in the count words of the format.  Every
/// in-memory record satisfies this; it matters only for models quantified
/// over in proofs.
pub open spec fn bounded_model(m: RecordModel) -> bool {
    &&& m.threads.len() <= u64::MAX
    &&& m.events.len() <= u64::MAX
    &&& forall|i: int| 0 <= i < m.threads.len() ==> #[trigger] m.threads[i].dirs.len() <= u64::MAX
}

// Specification-level parser, mirrored exactly by the executable one.
pub open spec fn sp_u64(b: Seq<u8>, pos: int) -> Option<(u64, int)> {
    if 0 <= pos && pos + 8 <= b.len() {
        Some((spec_u64_from_le_bytes(b.subrange(pos, pos + 8)), pos + 8))
    } else {
        None
    }
}

pub open spec fn sp_dir(b: Seq<u8>, pos: int) -> Option<(Directive, int)> {
    match sp_u64(b, pos) {
        None => None,
        Some((idx, p1)) => match sp_u64(b, p1) {
            None => None,
            Some((flag, p2)) => if flag == 1 {
                Some((Directive { index: idx, preemptive: true }, p2))
            } else if flag == 0 {
                Some((Directive { index: idx, preemptive: false }, p2))
            } else {
                None
            },
        },
    }
}

pub open spec fn sp_dirs(b: Seq<u8>, pos: int, n: nat) -> Option<(Seq<Directive>, int)>
    decreases n,
{
    if n == 0 {
        Some((Seq::empty(), pos))
    } else {
        match sp_dir(b, pos) {
            None => None,
            Some((d, p1)) => match sp_dirs(b, p1, (n - 1) as nat) {
                None => None,
                Some((ds, p2)) => Some((seq![d] + ds, p2)),
            },
        }
    }
}

pub open spec fn sp_thread(b: Seq<u8>, pos: int) -> Option<(ThreadModel, int)> {
    match sp_u64(b, pos) {
        None => None,
        Some((tid, p1)) => match sp_u64(b, p1) {
            None => None,
            Some((cnt, p2)) => match sp_dirs(b, p2, cnt as nat) {
                None => None,
                Some((ds, p3)) => Some((ThreadModel { tid, dirs: ds }, p3)),
            },
        },
    }
}

pub open spec fn sp_threads(b: Seq<u8>, pos: int, n: nat) -> Option<(Seq<ThreadModel>, int)>
    decreases n,
{
    if n == 0 {
        Some((Seq::empty(), pos))
    } else {
        match sp_thread(b, pos) {
            None => None,
            Some((t, p1)) => match sp_threads(b, p1, (n - 1) as nat) {
                None => None,
                Some((ts, p2)) => Some((seq![t] + ts, p2)),
            },
        }
    }
}

pub open spec fn sp_event(b: Seq<u8>, pos: int) -> Option<(SchedEvent, int)> {
    match sp_u64(b, pos) {
        None => None,
        Some((tid, p1)) => match sp_u64(b, p1) {
            None => None,
            Some((op, p2)) => Some((SchedEvent { tid, op }, p2)),
        },
    }
}

pub open spec fn sp_events(b: Seq<u8>, pos: int, n: nat) -> Option<(Seq<SchedEvent>, int)>
    decreases n,
{
    if n == 0 {
        Some((Seq::empty(), pos))
    } else {
        match sp_event(b, pos) {
            None => None,
            Some((e, p1)) => match sp_events(b, p1, (n - 1) as nat) {
                None => None,
                Some((es, p2)) => Some((seq![e] + es, p2)),
            },
        }
    }
}

/// What a byte string decodes to: `None` on any malformed input, including
/// trailing bytes.
pub open spec fn spec_decode(b: Seq<u8>) -> Option<RecordModel> {
    match sp_u64(b, 0) {
        None => None,
        Some((ver, p0)) => if ver != FORMAT_VERSION {
            None
        } else {
            match sp_u64(b, p0) {
                None => None,
                Some((tn, p1)) => match sp_threads(b, p1, tn as nat) {
                    None => None,
                    Some((ts, p2)) => match sp_u64(b, p2) {
                        None => None,
                        Some((en, p3)) => match sp_events(b, p3, en as nat) {
                            None => None,
                            Some((es, p4)) => if p4 == b.len() {
                                Some(RecordModel { threads: ts, events: es })
                            } else {
                                None
                            },
                        },
                    },
                },
            }
        },
    }
}

proof fn lemma_enc64_len(x: u64)
    ensures
        enc64(x).len() == 8,
        spec_u64_from_le_bytes(enc64(x)) == x,
{
    lemma_auto_spec_u64_to_from_le_bytes();
}

proof fn lemma_enc_dirs_concat(a: Seq<Directive>, c: Seq<Directive>)
    ensures
        enc_dirs(a + c) == enc_dirs(a) + enc_dirs(c),
    decreases c.len(),
{
    if c.len() == 0 {
        assert(a + c =~= a);
        assert(enc_dirs(a) + enc_dirs(c) =~= enc_dirs(a));
    } else {
        assert((a + c).drop_last() =~= a + c.drop_last());
        assert((a + c).last() == c.last());
        lemma_enc_dirs_concat(a, c.drop_last());
        assert(enc_dirs(a) + (enc_dirs(c.drop_last()) + enc_dir(c.last())) =~= (enc_dirs(a)
            + enc_dirs(c.drop_last())) + enc_dir(c.last()));
    }
}

proof fn lemma_enc_dirs_first(ds: Seq<Directive>)
    requires
        ds.len() > 0,
    ensures
        enc_dirs(ds) == enc_dir(ds[0]) + enc_dirs(ds.drop_first()),
{
    assert(ds =~= seq![ds[0]] + ds.drop_first());
    lemma_enc_dirs_concat(seq![ds[0]], ds.drop_first());
    assert(seq![ds[0]].drop_last() =~= Seq::<Directive>::empty());
    assert(seq![ds[0]].last() == ds[0]);
    assert(enc_dirs(Seq::<Directive>::empty()) =~= Seq::<u8>::empty());
    assert(enc_dirs(seq![ds[0]]) =~= enc_dirs(Seq::<Directive>::empty()) + enc_dir(ds[0]));
    assert(enc_dirs(seq![ds[0]]) =~= enc_dir(ds[0]));
}

proof fn lemma_enc_dirs_len(ds: Seq<Directive>)
    ensures
        enc_dirs(ds).len() == 16 * ds.len(),
    decreases ds.len(),
{
    if ds.len() > 0 {
        lemma_enc_dirs_len(ds.drop_last());
        lemma_enc64_len(ds.last().index);
        lemma_enc64_len(
            if ds.last().preemptive {
                1u64
            } else {
                0u64
            },
        );
    }
}

proof fn lemma_enc_events_concat(a: Seq<SchedEvent>, c: Seq<SchedEvent>)
    ensures
        enc_events(a + c) == enc_events(a) + enc_events(c),
    decreases c.len(),
{
    if c.len() == 0 {
        assert(a + c =~= a);
        assert(enc_events(a) + enc_events(c) =~= enc_events(a));
    } else {
        assert((a + c).drop_last() =~= a + c.drop_last());
        assert((a + c).last() == c.last());
        lemma_enc_events_concat(a, c.drop_last());
        assert(enc_events(a) + (enc_events(c.drop_last()) + enc_event(c.last())) =~= (enc_events(a)
            + enc_events(c.drop_last())) + enc_event(c.last()));
    }
}

proof fn lemma_enc_events_first(es: Seq<SchedEvent>)
    requires
        es.len() > 0,
    ensures
        enc_events(es) == enc_event(es[0]) + enc_events(es.drop_first()),
{
    assert(es =~= seq![es[0]] + es.drop_first());
    lemma_enc_events_concat(seq![es[0]], es.drop_first());
    assert(seq![es[0]].drop_last() =~= Seq::<SchedEvent>::empty());
    assert(seq![es[0]].last() == es[0]);
    assert(enc_events(Seq::<SchedEvent>::empty()) =~= Seq::<u8>::empty());
    assert(enc_events(seq![es[0]]) =~= enc_events(Seq::<SchedEvent>::empty()) + enc_event(es[0]));
    assert(enc_events(seq![es[0]]) =~= enc_event(es[0]));
}

proof fn lemma_enc_events_len(es: Seq<SchedEvent>)
    ensures
        enc_events(es).len() == 16 * es.len(),
    decreases es.len(),
{
    if es.len() > 0 {
        lemma_enc_events_len(es.drop_last());
        lemma_enc64_len(es.last().tid);
        lemma_enc64_len(es.last().op);
    }
}

proof fn lemma_enc_threads_concat(a: Seq<ThreadModel>, c: Seq<ThreadModel>)
    ensures
        enc_threads(a + c) == enc_threads(a) + enc_threads(c),
    decreases c.len(),
{
    if c.len() == 0 {
        assert(a + c =~= a);
        assert(enc_threads(a) + enc_threads(c) =~= enc_threads(a));
    } else {
        assert((a + c).drop_last() =~= a + c.drop_last());
        assert((a + c).last() == c.last());
        lemma_enc_threads_concat(a, c.drop_last());
        assert(enc_threads(a) + (enc_threads(c.drop_last()) + enc_thread(c.last())) =~= (
        enc_threads(a) + enc_threads(c.drop_last())) + enc_thread(c.last()));
    }
}

proof fn lemma_enc_threads_first(ts: Seq<ThreadModel>)
    requires
        ts.len() > 0,
    ensures
        enc_threads(ts) == enc_thread(ts[0]) + enc_threads(ts.drop_first()),
{
    assert(ts =~= seq![ts[0]] + ts.drop_first());
    lemma_enc_threads_concat(seq![ts[0]], ts.drop_first());
    assert(seq![ts[0]].drop_last() =~= Seq::<ThreadModel>::empty());
    assert(seq![ts[0]].last() == ts[0]);
    assert(enc_threads(Seq::<ThreadModel>::empty()) =~= Seq::<u8>::empty());
    assert(enc_threads(seq![ts[0]]) =~= enc_threads(Seq::<ThreadModel>::empty()) + enc_thread(ts[0]));
    assert(enc_threads(seq![ts[0]]) =~= enc_thread(ts[0]));
}

proof fn lemma_sp_u64_enc(b: Seq<u8>, pos: int, x: u64)
    requires
        0 <= pos,
        pos + 8 <= b.len(),
        b.subrange(pos, pos + 8) == enc64(x),
    ensures
        sp_u64(b, pos) == Some((x, pos + 8)),
{
    lemma_auto_spec_u64_to_from_le_bytes();
}

proof fn lemma_sp_dir_enc(b: Seq<u8>, pos: int, d: Directive)
    requires
        0 <= pos,
        pos + 16 <= b.len(),
        b.subrange(pos, pos + 16) == enc_dir(d),
    ensures
        sp_dir(b, pos) == Some((d, pos + 16)),
{
    let flag: u64 = if d.preemptive {
        1u64
    } else {
        0u64
    };
    lemma_enc64_len(d.index);
    lemma_enc64_len(flag);
    assert(b.subrange(pos, pos + 8) =~= enc_dir(d).subrange(0, 8));
    assert(enc_dir(d).subrange(0, 8) =~= enc64(d.index));
    assert(b.subrange(pos + 8, pos + 16) =~= enc_dir(d).subrange(8, 16));
    assert(enc_dir(d).subrange(8, 16) =~= enc64(flag));
    lemma_sp_u64_enc(b, pos, d.index);
    lemma_sp_u64_enc(b, pos + 8, flag);
}

proof fn lemma_sp_dirs_enc(b: Seq<u8>, pos: int, ds: Seq<Directive>)
    requires
        0 <= pos,
        pos + 16 * ds.len() <= b.len(),
        b.subrange(pos, pos + 16 * ds.len()) == enc_dirs(ds),
    ensures
        sp_dirs(b, pos, ds.len()) == Some((ds, pos + 16 * ds.len())),
    decreases ds.len(),
{
    lemma_enc_dirs_len(ds);
    if ds.len() > 0 {
        lemma_enc_dirs_first(ds);
        lemma_enc_dirs_len(ds.drop_first());
        let whole = b.subrange(pos, pos + 16 * ds.len());
        assert(b.subrange(pos, pos + 16) =~= whole.subrange(0, 16));
        assert(whole.subrange(0, 16) =~= enc_dir(ds[0]));
        lemma_sp_dir_enc(b, pos, ds[0]);
        assert(b.subrange(pos + 16, pos + 16 * ds.len() as int) =~= whole.subrange(16, 16 * ds.len() as int));
        assert(whole.subrange(16, 16 * ds.len() as int) =~= enc_dirs(ds.drop_first()));
        lemma_sp_dirs_enc(b, pos + 16, ds.drop_first());
        assert(seq![ds[0]] + ds.drop_first() =~= ds);
        assert(pos + 16 + 16 * ds.drop_first().len() == pos + 16 * ds.len());
    }
}

proof fn lemma_sp_thread_enc(b: Seq<u8>, pos: int, t: ThreadModel)
    requires
        0 <= pos,
        t.dirs.len() <= u64::MAX,
        pos + enc_thread(t).len() <= b.len(),
        b.subrange(pos, pos + enc_thread(t).len()) == enc_thread(t),
    ensures
        sp_thread(b, pos) == Some((t, pos + enc_thread(t).len())),
        enc_thread(t).len() == 16 + 16 * t.dirs.len(),
{
    let cnt: u64 = t.dirs.len() as u64;
    lemma_enc64_len(t.tid);
    lemma_enc64_len(cnt);
    lemma_enc_dirs_len(t.dirs);
    let el = enc_thread(t).len();
    let whole = b.subrange(pos, pos + el);
    assert(b.subrange(pos, pos + 8) =~= whole.subrange(0, 8));
    assert(whole.subrange(0, 8) =~= enc64(t.tid));
    lemma_sp_u64_enc(b, pos, t.tid);
    assert(b.subrange(pos + 8, pos + 16) =~= whole.subrange(8, 16));
    assert(whole.subrange(8, 16) =~= enc64(cnt));
    lemma_sp_u64_enc(b, pos + 8, cnt);
    assert(b.subrange(pos + 16, pos + el) =~= whole.subrange(16, el as int));
    assert(whole.subrange(16, el as int) =~= enc_dirs(t.dirs));
    lemma_sp_dirs_enc(b, pos + 16, t.dirs);
    assert(cnt as nat == t.dirs.len());
}

proof fn lemma_sp_threads_enc(b: Seq<u8>, pos: int, ts: Seq<ThreadModel>)
    requires
        0 <= pos,
        forall|i: int| 0 <= i < ts.len() ==> #[trigger] ts[i].dirs.len() <= u64::MAX,
        pos + enc_threads(ts).len() <= b.len(),
        b.subrange(pos, pos + enc_threads(ts).len()) == enc_threads(ts),
    ensures
        sp_threads(b, pos, ts.len()) == Some((ts, pos + enc_threads(ts).len())),
    decreases ts.len(),
{
    if ts.len() > 0 {
        lemma_enc_threads_first(ts);
        let t0 = ts[0];
        let el0 = enc_thread(t0).len();
        let whole = b.subrange(pos, pos + enc_threads(ts).len());
        assert(b.subrange(pos, pos + el0) =~= whole.subrange(0, el0 as int));
        assert(whole.subrange(0, el0 as int) =~= enc_thread(t0));
        lemma_sp_thread_enc(b, pos, t0);
        let rest = ts.drop_first();
        assert forall|i: int| 0 <= i < rest.len() implies #[trigger] rest[i].dirs.len()
            <= u64::MAX by {
            assert(ts[i + 1].dirs.len() <= u64::MAX);
        }
        assert(b.subrange(pos + el0, pos + enc_threads(ts).len()) =~= whole.subrange(
            el0 as int,
            enc_threads(ts).len() as int,
        ));
        assert(whole.subrange(el0 as int, enc_threads(ts).len() as int) =~= enc_threads(rest));
        lemma_sp_threads_enc(b, pos + el0, rest);
        assert(seq![t0] + rest =~= ts);
    }
}

proof fn lemma_sp_event_enc(b: Seq<u8>, pos: int, e: SchedEvent)
    requires
        0 <= pos,
        pos + 16 <= b.len(),
        b.subrange(pos, pos + 16) == enc_event(e),
    ensures
        sp_event(b, pos) == Some((e, pos + 16)),
{
    lemma_enc64_len(e.tid);
    lemma_enc64_len(e.op);
    assert(b.subrange(pos, pos + 8) =~= enc_event(e).subrange(0, 8));
    assert(enc_event(e).subrange(0, 8) =~= enc64(e.tid));
    assert(b.subrange(pos + 8, pos + 16) =~= enc_event(e).subrange(8, 16));
    assert(enc_event(e).subrange(8, 16) =~= enc64(e.op));
    lemma_sp_u64_enc(b, pos, e.tid);
    lemma_sp_u64_enc(b, pos + 8, e.op);
}

proof fn lemma_sp_events_enc(b: Seq<u8>, pos: int, es: Seq<SchedEvent>)
    requires
        0 <= pos,
        pos + 16 * es.len() <= b.len(),
        b.subrange(pos, pos + 16 * es.len()) == enc_events(es),
    ensures
        sp_events(b, pos, es.len()) == Some((es, pos + 16 * es.len())),
    decreases es.len(),
{
    lemma_enc_events_len(es);
    if es.len() > 0 {
        lemma_enc_events_first(es);
        lemma_enc_events_len(es.drop_first());
        let whole = b.subrange(pos, pos + 16 * es.len());
        assert(b.subrange(pos, pos + 16) =~= whole.subrange(0, 16));
        assert(whole.subrange(0, 16) =~= enc_event(es[0]));
        lemma_sp_event_enc(b, pos, es[0]);
        assert(b.subrange(pos + 16, pos + 16 * es.len() as int) =~= whole.subrange(16, 16 * es.len() as int));
        assert(whole.subrange(16, 16 * es.len() as int) =~= enc_events(es.drop_first()));
        lemma_sp_events_enc(b, pos + 16, es.drop_first());
        assert(seq![es[0]] + es.drop_first() =~= es);
    }
}

/// A record written in the canonical byte form reads back as itself.
pub proof fn lemma_round_trip(m: RecordModel)
    requires
        bounded_model(m),
    ensures
        spec_decode(spec_encode(m)) == Some(m),
{
    let b = spec_encode(m);
    let tn: u64 = m.threads.len() as u64;
    let en: u64 = m.events.len() as u64;
    lemma_enc64_len(FORMAT_VERSION);
    lemma_enc64_len(tn);
    lemma_enc64_len(en);
    lemma_enc_events_len(m.events);
    let tl: int = enc_threads(m.threads).len() as int;
    let el: int = enc_events(m.events).len() as int;
    assert(b.len() == 16 + tl + 8 + el);
    assert(b.subrange(0, 8) =~= enc64(FORMAT_VERSION));
    lemma_sp_u64_enc(b, 0, FORMAT_VERSION);
    assert(b.subrange(8, 16) =~= enc64(tn));
    lemma_sp_u64_enc(b, 8, tn);
    assert(b.subrange(16, 16 + tl) =~= enc_threads(m.threads));
    lemma_sp_threads_enc(b, 16, m.threads);
    assert(tn as nat == m.threads.len());
    assert(b.subrange(16 + tl, 24 + tl) =~= enc64(en));
    lemma_sp_u64_enc(b, 16 + tl, en);
    assert(b.subrange(24 + tl, 24 + tl + el) =~= enc_events(m.events));
    lemma_sp_events_enc(b, 24 + tl, m.events);
    assert(en as nat == m.events.len());
    assert(24 + tl + 16 * m.events.len() == b.len());
}

fn push_u64(out: &mut Vec<u8>, x: u64)
    ensures
        final(out)@ == old(out)@ + enc64(x),
{
    let mut bs = u64_to_le_bytes(x);
    out.append(&mut bs);
}

fn read_u64(b: &[u8], pos: usize) -> (r: Option<(u64, usize)>)
    ensures
        r is None <==> sp_u64(b@, pos as int) is None,
        r matches Some(p) ==> sp_u64(b@, pos as int) == Some((p.0, p.1 as int)),
{
    if pos <= b.len() && b.len() - pos >= 8 {
        let s = slice_subrange(b, pos, pos + 8);
        let x = u64_from_le_bytes(s);
        Some((x, pos + 8))
    } else {
        None
    }
}

fn read_dir(b: &[u8], pos: usize) -> (r: Option<(Directive, usize)>)
    ensures
        r is None <==> sp_dir(b@, pos as int) is None,
        r matches Some(p) ==> sp_dir(b@, pos as int) == Some((p.0, p.1 as int)),
{
    match read_u64(b, pos) {
        None => None,
        Some((idx, p1)) => match read_u64(b, p1) {
            None => None,
            Some((flag, p2)) => {
                if flag == 1 {
                    Some((Directive { index: idx, preemptive: true }, p2))
                } else if flag == 0 {
                    Some((Directive { index: idx, preemptive: false }, p2))
                } else {
                    None
                }
            },
        },
    }
}

fn read_dirs(b: &[u8], pos: usize, n: u64) -> (r: Option<(Vec<Directive>, usize)>)
    ensures
        r is None <==> sp_dirs(b@, pos as int, n as nat) is None,
        r matches Some(p) ==> sp_dirs(b@, pos as int, n as nat) == Some((p.0@, p.1 as int)),
{
    let mut acc: Vec<Directive> = Vec::new();
    let mut cur: usize = pos;
    let mut i: u64 = 0;
    while i < n
        invariant
            i <= n,
            sp_dirs(b@, pos as int, n as nat) == (match sp_dirs(b@, cur as int, (n - i) as nat) {
                None => None::<(Seq<Directive>, int)>,
                Some((ds, e)) => Some((acc@ + ds, e)),
            }),
        decreases n - i,
    {
        match read_dir(b, cur) {
            None => {
                return None;
            },
            Some((d, p1)) => {
                proof {
                    let rest = sp_dirs(b@, p1 as int, (n - i - 1) as nat);
                    if rest is Some {
                        let (rds, re) = rest->0;
                        assert(acc@.push(d) + rds =~= acc@ + (seq![d] + rds));
                    }
                }
                acc.push(d);
                cur = p1;
            },
        }
        i = i + 1;
    }
    proof {
        assert(sp_dirs(b@, cur as int, 0) == Some((Seq::<Directive>::empty(), cur as int)));
        assert(acc@ + Seq::<Directive>::empty() =~= acc@);
    }
    Some((acc, cur))
}

fn read_thread(b: &[u8], pos: usize) -> (r: Option<(ThreadDirectives, usize)>)
    ensures
        r is None <==> sp_thread(b@, pos as int) is None,
        r matches Some(p) ==> sp_thread(b@, pos as int) == Some((p.0@, p.1 as int)),
{
    match read_u64(b, pos) {
        None => None,
        Some((tid, p1)) => match read_u64(b, p1) {
            None => None,
            Some((cnt, p2)) => match read_dirs(b, p2, cnt) {
                None => None,
                Some((ds, p3)) => Some((ThreadDirectives { tid, dirs: ds }, p3)),
            },
        },
    }
}

fn read_threads(b: &[u8], pos: usize, n: u64) -> (r: Option<(Vec<ThreadDirectives>, usize)>)
    ensures
        r is None <==> sp_threads(b@, pos as int, n as nat) is None,
        r matches Some(p) ==> sp_threads(b@, pos as int, n as nat) == Some(
            (Seq::new(p.0@.len(), |i: int| p.0@[i]@), p.1 as int),
        ),
{
    let mut acc: Vec<ThreadDirectives> = Vec::new();
    let mut cur: usize = pos;
    let mut i: u64 = 0;
    while i < n
        invariant
            i <= n,
            sp_threads(b@, pos as int, n as nat) == (match sp_threads(
                b@,
                cur as int,
                (n - i) as nat,
            ) {
                None => None::<(Seq<ThreadModel>, int)>,
                Some((ts, e)) => Some((Seq::new(acc@.len(), |k: int| acc@[k]@) + ts, e)),
            }),
        decreases n - i,
    {
        let ghost accm = Seq::new(acc@.len(), |k: int| acc@[k]@);
        match read_thread(b, cur) {
            None => {
                return None;
            },
            Some((t, p1)) => {
                proof {
                    let rest = sp_threads(b@, p1 as int, (n - i - 1) as nat);
                    if rest is Some {
                        let (rts, re) = rest->0;
                        assert(Seq::new(acc@.push(t).len(), |k: int| acc@.push(t)[k]@) + rts
                            =~= accm + (seq![t@] + rts));
                    }
                }
                acc.push(t);
                cur = p1;
            },
        }
        i = i + 1;
    }
    proof {
        assert(sp_threads(b@, cur as int, 0) == Some((Seq::<ThreadModel>::empty(), cur as int)));
        assert(Seq::new(acc@.len(), |k: int| acc@[k]@) + Seq::<ThreadModel>::empty() =~= Seq::new(
            acc@.len(),
            |k: int| acc@[k]@,
        ));
    }
    Some((acc, cur))
}

fn read_event(b: &[u8], pos: usize) -> (r: Option<(SchedEvent, usize)>)
    ensures
        r is None <==> sp_event(b@, pos as int) is None,
        r matches Some(p) ==> sp_event(b@, pos as int) == Some((p.0, p.1 as int)),
{
    match read_u64(b, pos) {
        None => None,
        Some((tid, p1)) => match read_u64(b, p1) {
            None => None,
            Some((op, p2)) => Some((SchedEvent { tid, op }, p2)),
        },
    }
}

fn read_events(b: &[u8], pos: usize, n: u64) -> (r: Option<(Vec<SchedEvent>, usize)>)
    ensures
        r is None <==> sp_events(b@, pos as int, n as nat) is None,
        r matches Some(p) ==> sp_events(b@, pos as int, n as nat) == Some((p.0@, p.1 as int)),
{
    let mut acc: Vec<SchedEvent> = Vec::new();
    let mut cur: usize = pos;
    let mut i: u64 = 0;
    while i < n
        invariant
            i <= n,
            sp_events(b@, pos as int, n as nat) == (match sp_events(b@, cur as int, (n - i) as nat) {
                None => None::<(Seq<SchedEvent>, int)>,
                Some((es, e)) => Some((acc@ + es, e)),
            }),
        decreases n - i,
    {
        match read_event(b, cur) {
            None => {
                return None;
            },
            Some((ev, p1)) => {
                proof {
                    let rest = sp_events(b@, p1 as int, (n - i - 1) as nat);
                    if rest is Some {
                        let (res2, re) = rest->0;
                        assert(acc@.push(ev) + res2 =~= acc@ + (seq![ev] + res2));
                    }
                }
                acc.push(ev);
                cur = p1;
            },
        }
        i = i + 1;
    }
    proof {
        assert(sp_events(b@, cur as int, 0) == Some((Seq::<SchedEvent>::empty(), cur as int)));
        assert(acc@ + Seq::<SchedEvent>::empty() =~= acc@);
    }
    Some((acc, cur))
}

impl PreemptionRecord {
    /// Serialize the record into its canonical byte form.
    pub fn write_to(&self) -> (out: Vec<u8>)
        ensures
            out@ == spec_encode(self@),
    {
        let ghost m = self@;
        let mut out: Vec<u8> = Vec::new();
        push_u64(&mut out, FORMAT_VERSION);
        push_u64(&mut out, self.threads.len() as u64);
        let ghost header = enc64(FORMAT_VERSION) + enc64(m.threads.len() as u64);
        proof {
            assert(out@ =~= header);
        }
        let n = self.threads.len();
        let mut t: usize = 0;
        while t < n
            invariant
                t <= n,
                n == self.threads.len(),
                m == self@,
                out@ =~= header + enc_threads(m.threads.take(t as int)),
            decreases n - t,
        {
            let th = &self.threads[t];
            let ghost tpre = out@;
            push_u64(&mut out, th.tid);
            push_u64(&mut out, th.dirs.len() as u64);
            let dn = th.dirs.len();
            let mut j: usize = 0;
            while j < dn
                invariant
                    j <= dn,
                    t < self.threads.len(),
                    dn == self.threads[t as int].dirs.len(),
                    th == &self.threads[t as int],
                    m == self@,
                    out@ =~= tpre + enc64(th.tid) + enc64(th.dirs@.len() as u64) + enc_dirs(
                        th.dirs@.take(j as int),
                    ),
                decreases dn - j,
            {
                let d = th.dirs[j];
                push_u64(&mut out, d.index);
                if d.preemptive {
                    push_u64(&mut out, 1);
                } else {
                    push_u64(&mut out, 0);
                }
                proof {
                    assert(th.dirs@.take(j + 1).drop_last() =~= th.dirs@.take(j as int));
                    assert(th.dirs@.take(j + 1).last() == th.dirs@[j as int]);
                }
                j = j + 1;
            }
            proof {
                assert(th.dirs@.take(j as int) =~= th.dirs@);
                assert(m.threads[t as int] == th@);
                assert(m.threads.take(t + 1).drop_last() =~= m.threads.take(t as int));
                assert(m.threads.take(t + 1).last() == m.threads[t as int]);
                assert(out@ =~= header + enc_threads(m.threads.take(t + 1)));
            }
            t = t + 1;
        }
        proof {
            assert(m.threads.take(t as int) =~= m.threads);
        }
        push_u64(&mut out, self.events.len() as u64);
        let ghost epre = out@;
        let en = self.events.len();
        let mut k: usize = 0;
        while k < en
            invariant
                k <= en,
                en == self.events.len(),
                m == self@,
                out@ =~= epre + enc_events(m.events.take(k as int)),
            decreases en - k,
        {
            let e = self.events[k];
            push_u64(&mut out, e.tid);
            push_u64(&mut out, e.op);
            proof {
                assert(m.events.take(k + 1).drop_last() =~= m.events.take(k as int));
                assert(m.events.take(k + 1).last() == m.events[k as int]);
            }
            k = k + 1;
        }
        proof {
            assert(m.events.take(k as int) =~= m.events);
            assert(out@ =~= spec_encode(m));
        }
        out
    }

    /// Parse a record from its canonical byte form; `None` exactly on
    /// malformed input.
    pub fn load_from(b: &[u8]) -> (r: Option<PreemptionRecord>)
        ensures
            r is None <==> spec_decode(b@) is None,
            r matches Some(rec) ==> spec_decode(b@) == Some(rec@),
    {
        match read_u64(b, 0) {
            None => None,
            Some((ver, p0)) => {
                if ver != FORMAT_VERSION {
                    None
                } else {
                    match read_u64(b, p0) {
                        None => None,
                        Some((tn, p1)) => match read_threads(b, p1, tn) {
                            None => None,
                            Some((ts, p2)) => match read_u64(b, p2) {
                                None => None,
                                Some((en, p3)) => match read_events(b, p3, en) {
                                    None => None,
                                    Some((es, p4)) => {
                                        if p4 == b.len() {
                                            let rec = PreemptionRecord { threads: ts, events: es };
                                            proof {
                                                assert(spec_decode(b@) == Some(rec@));
                                            }
                                            Some(rec)
                                        } else {
                                            None
                                        }
                                    },
                                },
                            },
                        },
                    }
                }
            },
        }
    }
}

/// Loading what was written gives the record back; stated over the models of
/// the two executable functions.
pub proof fn lemma_record_round_trip(r: PreemptionRecord)
    ensures
        spec_decode(spec_encode(r@)) == Some(r@),
{
    broadcast use vstd::std_specs::vec::axiom_spec_len;

    assert(r.threads@.len() == r.threads.len());
    assert(r.events@.len() == r.events.len());
    assert forall|i: int| 0 <= i < r@.threads.len() implies #[trigger] r@.threads[i].dirs.len()
        <= u64::MAX by {
        assert(r@.threads[i].dirs == r.threads@[i].dirs@);
        assert(r.threads@[i].dirs@.len() == r.threads@[i].dirs.len());
    }
    lemma_round_trip(r@);
}

/// Whether two record models hold the same data.
pub open spec fn models_equal(a: RecordModel, b: RecordModel) -> bool {
    a.threads =~~= b.threads && a.events =~= b.events
}

/// Compare two records structurally.
pub fn records_equal(a: &PreemptionRecord, b: &PreemptionRecord) -> (r: bool)
    ensures
        r == models_equal(a@, b@),
{
    if a.threads.len() != b.threads.len() {
        return false;
    }
    if a.events.len() != b.events.len() {
        return false;
    }
    let mut t: usize = 0;
    while t < a.threads.len()
        invariant
            t <= a.threads.len(),
            a@.threads.len() == b@.threads.len(),
            a@.events.len() == b@.events.len(),
            forall|i: int| 0 <= i < t ==> a@.threads[i] =~= #[trigger] b@.threads[i],
        decreases a.threads.len() - t,
    {
        if a.threads[t].tid != b.threads[t].tid {
            proof {
                assert(a@.threads[t as int].tid != b@.threads[t as int].tid);
            }
            return false;
        }
        let ad = &a.threads[t].dirs;
        let bd = &b.threads[t].dirs;
        if ad.len() != bd.len() {
            assert(a@.threads[t as int].dirs.len() != b@.threads[t as int].dirs.len());
            return false;
        }
        let mut j: usize = 0;
        while j < ad.len()
            invariant
                j <= ad.len(),
                t < a.threads.len(),
                t < b.threads.len(),
                ad == &a.threads[t as int].dirs,
                bd == &b.threads[t as int].dirs,
                ad@.len() == bd@.len(),
                forall|i: int| 0 <= i < j ==> ad@[i] == #[trigger] bd@[i],
            decreases ad.len() - j,
        {
            if ad[j].index != bd[j].index || ad[j].preemptive != bd[j].preemptive {
                assert(a@.threads[t as int].dirs[j as int] != b@.threads[t as int].dirs[j as int]);
                return false;
            }
            j = j + 1;
        }
        proof {
            assert(a@.threads[t as int].dirs =~= b@.threads[t as int].dirs);
            assert(a@.threads[t as int] =~= b@.threads[t as int]);
        }
        t = t + 1;
    }
    let mut k: usize = 0;
    while k < a.events.len()
        invariant
            k <= a.events.len(),
            a@.events.len() == b@.events.len(),
            a@.threads.len() == b@.threads.len(),
            forall|i: int| 0 <= i < a@.threads.len() ==> a@.threads[i] =~= #[trigger] b@.threads[i],
            forall|i: int| 0 <= i < k ==> a@.events[i] == #[trigger] b@.events[i],
        decreases a.events.len() - k,
    {
        if a.events[k].tid != b.events[k].tid || a.events[k].op != b.events[k].op {
            return false;
        }
        k = k + 1;
    }
    proof {
        assert(a@.threads =~~= b@.threads);
        assert(a@.events =~= b@.events);
    }
    true
}

/// Whether two serialized preemption records hold the same data: both parse
/// and are structurally equal.
pub fn preempt_files_equal(bytes1: &[u8], bytes2: &[u8]) -> (r: bool)
    ensures
        r == match (spec_decode(bytes1@), spec_decode(bytes2@)) {
            (Some(m1), Some(m2)) => models_equal(m1, m2),
            _ => false,
        },
{
    match (PreemptionRecord::load_from(bytes1), PreemptionRecord::load_from(bytes2)) {
        (Some(r1), Some(r2)) => records_equal(&r1, &r2),
        _ => false,
    }
}

/// Read a schedule trace from a serialized record: the events it carries.
pub fn read_trace(bytes: &[u8]) -> (r: Option<Vec<SchedEvent>>)
    ensures
        r is Some <==> spec_decode(bytes@) is Some,
        r matches Some(es) ==> es@ == spec_decode(bytes@)->0.events,
{
    match PreemptionRecord::load_from(bytes) {
        Option::None => Option::None,
        Option::Some(rec) => Option::Some(rec.events),
    }
}

} // verus!
