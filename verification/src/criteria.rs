//! The failure criterion and the oracle that decides whether a captured run
//! matches it.

use vstd::prelude::*;

verus! {

/// Constraint on a run's exit status.
#[derive(Clone, Copy, PartialEq, Eq, Structural, Debug)]
pub enum ExitStatusConstraint {
    Exact(i32),
    NonZero,
    Any,
}

impl ExitStatusConstraint {
    /// Whether `status` satisfies the constraint.
    pub open spec fn spec_is_match(self, status: i32) -> bool {
        match self {
            ExitStatusConstraint::Exact(c) => status == c,
            ExitStatusConstraint::NonZero => status != 0,
            ExitStatusConstraint::Any => true,
        }
    }

    pub fn is_match(&self, status: i32) -> (r: bool)
        ensures
            r == self.spec_is_match(status),
    {
        match self {
            ExitStatusConstraint::Exact(c) => status == *c,
            ExitStatusConstraint::NonZero => status != 0,
            ExitStatusConstraint::Any => true,
        }
    }
}

/// What one execution of the traced program produced: its exit status and
/// captured standard streams.
#[derive(Debug)]
pub struct RunOutput {
    pub status: i32,
    pub stdout: Vec<u8>,
    pub stderr: Vec<u8>,
}

/// Whether the pattern `pat` is a regular expression the engine accepts,
/// a function of the pattern text alone.
pub uninterp spec fn regex_valid(pat: Seq<char>) -> bool;

/// Whether `text` matches the regular expression `pat`.
pub uninterp spec fn regex_match(pat: Seq<char>, text: Seq<char>) -> bool;

/// The text that a byte stream decodes to, invalid sequences replaced.
pub uninterp spec fn lossy_decode(bytes: Seq<u8>) -> Seq<char>;

/// Relies on regex::Regex::new and regex::Regex::is_match: whether `text`
/// matches the regular expression `pat`; `None` exactly when `Regex::new`
/// rejects the pattern.  Both are functions of their text arguments alone.
#[verifier::external_body]
fn regex_is_match(pat: &str, text: &str) -> (r: Option<bool>)
    ensures
        r is Some <==> regex_valid(pat@),
        r matches Some(m) ==> m == regex_match(pat@, text@),
{
    match regex::Regex::new(pat) {
        Ok(re) => Some(re.is_match(text)),
        Err(_) => None,
    }
}

/// Relies on String::from_utf8_lossy: the text of a captured byte stream,
/// a function of the bytes alone.
#[verifier::external_body]
fn lossy_utf8(bytes: &[u8]) -> (s: String)
    ensures
        s@ == lossy_decode(bytes@),
{
    String::from_utf8_lossy(bytes).into_owned()
}

/// The view of an optional pattern.
pub open spec fn opt_pat(p: Option<String>) -> Option<Seq<char>> {
    match p {
        Option::None => Option::None,
        Option::Some(s) => Option::Some(s@),
    }
}

/// Whether a captured stream satisfies an optional pattern constraint.  An
/// absent pattern always holds; a pattern that is not a well-formed regular
/// expression never holds.
pub open spec fn stream_ok(pat: Option<Seq<char>>, bytes: Seq<u8>) -> bool {
    match pat {
        Option::None => true,
        Option::Some(p) => regex_valid(p) && regex_match(p, lossy_decode(bytes)),
    }
}

/// Decide an optional stream-pattern constraint against captured bytes.
pub fn check_stream(pat: &Option<String>, bytes: &[u8]) -> (r: bool)
    ensures
        r == stream_ok(opt_pat(*pat), bytes@),
{
    match pat {
        Option::None => true,
        Option::Some(p) => {
            let text = lossy_utf8(bytes);
            match regex_is_match(p.as_str(), text.as_str()) {
                Option::None => false,
                Option::Some(m) => m,
            }
        },
    }
}

/// Check a pattern without deciding anything of a stream: whether the
/// engine accepts it at all.  The driver rejects a bad pattern before any
/// run is launched.
pub fn pattern_is_valid(pat: &str) -> (r: bool)
    ensures
        r == regex_valid(pat@),
{
    let empty_text = String::new();
    match regex_is_match(pat, empty_text.as_str()) {
        Option::None => false,
        Option::Some(_) => true,
    }
}

} // verus!
