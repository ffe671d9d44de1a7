//! Classification of one line of interactive input into a decision:
//! the trimmed line `"1"` picks the first option, `"2"` the second, and
//! anything else asks for the same pair again.

use vstd::prelude::*;

verus! {

/// The outcome of reading one line of input for a pair.
#[derive(Clone, Copy, PartialEq, Eq, Debug, Structural)]
pub enum Choice {
    /// The first option of the pair wins.
    First,
    /// The second option of the pair wins.
    Second,
    /// No decision: the same pair must be offered again.
    Invalid,
}

/// What a trimmed input line decides: exactly `"1"` picks the first
/// option, exactly `"2"` the second, anything else is invalid.
pub open spec fn spec_classify(t: Seq<char>) -> Choice {
    if t == seq!['1'] {
        Choice::First
    } else if t == seq!['2'] {
        Choice::Second
    } else {
        Choice::Invalid
    }
}

/// The result of `str::trim` on the given characters.
pub uninterp spec fn trim_of(s: Seq<char>) -> Seq<char>;

/// Relies on `str::trim`: it returns the input without leading and
/// trailing whitespace, a subslice, so no longer than the input; the
/// result depends on the characters alone.
#[verifier::external_body]
fn trim(s: &str) -> (r: &str)
    ensures
        r@ == trim_of(s@),
        r@.len() <= s@.len(),
{
    s.trim()
}

/// Classify an already-trimmed line.
pub fn classify_trimmed(t: &str) -> (c: Choice)
    ensures
        c == spec_classify(t@),
{
    proof {
        reveal_strlit("1");
        reveal_strlit("2");
    }
    if t.unicode_len() == 1 {
        let ch = t.get_char(0);
        if ch == '1' {
            assert(t@ =~= seq!['1']);
            Choice::First
        } else if ch == '2' {
            assert(t@ =~= seq!['2']);
            assert(t@ != seq!['1']);
            Choice::Second
        } else {
            assert(t@ != seq!['1'] && t@ != seq!['2']);
            Choice::Invalid
        }
    } else {
        assert(t@ != seq!['1'] && t@ != seq!['2']);
        Choice::Invalid
    }
}

/// Classify a raw input line: trim surrounding whitespace, then read the
/// remainder as a decision.
pub fn parse_choice(input: &str) -> (c: Choice)
    ensures
        c == spec_classify(trim_of(input@)),
{
    let t = trim(input);
    classify_trimmed(t)
}

} // verus!
