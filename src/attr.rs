//! The value of a playlist tag attribute: quoted (`"..."` or `'...'`,
//! up to the matching quote, with no escapes) or unquoted (up to the next
//! comma or the end).
use vstd::prelude::*;
use crate::text::{chars_of, find_from, find_in, lemma_find_from_bounds, string_of};

verus! {

/// Where the attribute value at the start of `s` lies: the value is
/// `s[from..to]`, and the whole value syntax, quotes included, is
/// `s[0..end]`. `None` for an empty input or an unterminated quote.
pub open spec fn attr_value_bounds(s: Seq<char>) -> Option<(int, int, int)> {
    if s.len() == 0 {
        None
    } else if s[0] == '"' || s[0] == '\'' {
        match find_from(s, seq![s[0]], 1) {
            Some(i) => Some((1, i, i + 1)),
            None => None,
        }
    } else {
        match find_from(s, seq![','], 0) {
            Some(i) => Some((0, i, i)),
            None => Some((0, s.len() as int, s.len() as int)),
        }
    }
}

/// The bounds of an attribute value lie in order inside `s`.
pub proof fn lemma_attr_value_bounds(s: Seq<char>)
    ensures
        attr_value_bounds(s) matches Some(b) ==> 0 <= b.0 <= b.1 <= b.2 <= s.len(),
{
    if s.len() > 0 {
        lemma_find_from_bounds(s, seq![s[0]], 1);
        lemma_find_from_bounds(s, seq![','], 0);
    }
}

/// The bounds of the attribute value at the start of `s`.
pub fn attr_value_span(s: &[char]) -> (r: Option<(usize, usize, usize)>)
    ensures
        r is Some <==> attr_value_bounds(s@) is Some,
        r matches Some(b) ==> attr_value_bounds(s@) == Some((b.0 as int, b.1 as int, b.2 as int)),
        r matches Some(b) ==> b.0 <= b.1 <= b.2 <= s@.len(),
{
    if s.len() == 0 {
        return None;
    }
    let first = s[0];
    if first == '"' || first == '\'' {
        let quote = vec![first];
        assert(quote@ =~= seq![s@[0]]);
        match find_in(s, quote.as_slice(), 1) {
            Some(i) => {
                proof {
                    lemma_find_from_bounds(s@, seq![s@[0]], 1);
                }
                Some((1, i, i + 1))
            },
            None => None,
        }
    } else {
        let comma = vec![','];
        assert(comma@ =~= seq![',']);
        match find_in(s, comma.as_slice(), 0) {
            Some(i) => {
                proof {
                    lemma_find_from_bounds(s@, seq![','], 0);
                }
                Some((0, i, i))
            },
            None => Some((0, s.len(), s.len())),
        }
    }
}

/// The attribute value at the start of `s`, with the character span
/// `0..end` that its syntax takes; `(None, 0, 0)` for an empty input or an
/// unterminated quote.
pub fn parse_attr_value(s: &str) -> (r: (Option<String>, usize, usize))
    ensures
        match attr_value_bounds(s@) {
            Some(b) => r.0 matches Some(v) && v@ == s@.subrange(b.0, b.1) && r.1 == 0 && r.2
                == b.2,
            None => r.0 is None && r.1 == 0 && r.2 == 0,
        },
{
    let cs = chars_of(s);
    match attr_value_span(cs.as_slice()) {
        Some((from, to, end)) => {
            let v = string_of(&cs.as_slice()[from..to]);
            (Some(v), 0, end)
        },
        None => (None, 0, 0),
    }
}

} // verus!
