//! Attribute extraction from annotation records.
//!
//! A record's attribute column has the shape `key "value"; key "value";`.
//! The extractor finds the first occurrence of the key followed by a
//! space, then returns the text between the next pair of double quotes.

use vstd::prelude::*;
use vstd::string::StrSliceExecFns;

verus! {

/// The first position at or past `from` where `pat` occurs in `s`.
pub open spec fn spec_find_at(s: Seq<char>, pat: Seq<char>, from: int) -> Option<int>
    decreases s.len() - from,
{
    if from < 0 || from + pat.len() > s.len() {
        None
    } else if s.subrange(from, from + pat.len() as int) == pat {
        Some(from)
    } else if pat.len() == 0 {
        // unreachable: an empty pattern matches everywhere
        None
    } else {
        spec_find_at(s, pat, from + 1)
    }
}

/// What extracting an attribute yields: after the first occurrence of the
/// key followed by a space, the text between the next double quote and
/// the one after it; nothing when any of the three is missing.
pub open spec fn spec_extract_attribute(attributes: Seq<char>, key: Seq<char>) -> Option<
    Seq<char>,
> {
    let pat = key + seq![' '];
    match spec_find_at(attributes, pat, 0) {
        None => None,
        Some(at) => {
            let after_key = at + pat.len();
            match spec_find_at(attributes, seq!['"'], after_key) {
                None => None,
                Some(q1) => match spec_find_at(attributes, seq!['"'], q1 + 1) {
                    None => None,
                    Some(q2) => Some(attributes.subrange(q1 + 1, q2)),
                },
            }
        },
    }
}

/// The first position at or past `from` where `pat` occurs in `s`.
fn find_at(s: &str, pat: &str, from: usize) -> (r: Option<usize>)
    requires
        from <= s@.len(),
    ensures
        r matches Some(at) ==> (Some(at as int) == spec_find_at(s@, pat@, from as int) && from
            <= at && at + pat@.len() <= s@.len() && s@.subrange(at as int, at + pat@.len() as int)
            == pat@),
        r is None ==> spec_find_at(s@, pat@, from as int) is None,
{
    let n = s.unicode_len();
    let m = pat.unicode_len();
    if m > n || from > n - m {
        proof {
            assert(spec_find_at(s@, pat@, from as int) is None);
        }
        return None;
    }
    let mut i = from;
    while i <= n - m
        invariant
            from <= i,
            m <= n,
            i <= n - m + 1,
            n == s@.len(),
            m == pat@.len(),
            spec_find_at(s@, pat@, from as int) == spec_find_at(s@, pat@, i as int),
        decreases n - i,
    {
        let mut j: usize = 0;
        let mut matches_here = true;
        while j < m
            invariant
                j <= m,
                i + m <= n,
                n == s@.len(),
                m == pat@.len(),
                matches_here == (forall|q: int| 0 <= q < j ==> s@[i + q] == #[trigger] pat@[q]),
            decreases m - j,
        {
            if s.get_char(i + j) != pat.get_char(j) {
                matches_here = false;
                proof {
                    assert(s@[i + j] != pat@[j as int]);
                }
                j = m;
            } else {
                proof {
                    assert(s@[i + j] == pat@[j as int]);
                }
                j += 1;
            }
        }
        proof {
            if matches_here {
                assert(s@.subrange(i as int, i + m) =~= pat@);
            } else {
                assert(s@.subrange(i as int, i + m) != pat@) by {
                    if s@.subrange(i as int, i + m) == pat@ {
                        assert(forall|q: int|
                            0 <= q < m ==> s@[i + q] == #[trigger] s@.subrange(i as int, i + m)[q]);
                    }
                }
            }
        }
        if matches_here {
            return Some(i);
        }
        i += 1;
    }
    proof {
        assert(spec_find_at(s@, pat@, i as int) is None);
    }
    None
}

/// Extract an attribute value from a record's attribute column, exactly
/// as [`spec_extract_attribute`] defines: the text between the first pair
/// of double quotes after the first `key ` occurrence.
pub fn extract_attribute(attributes: &str, key: &str) -> (r: Option<String>)
    ensures
        r matches Some(v) ==> Some(v@) == spec_extract_attribute(attributes@, key@),
        r is None ==> spec_extract_attribute(attributes@, key@) is None,
{
    let space = " ";
    let quote = "\"";
    proof {
        reveal_strlit(" ");
        reveal_strlit("\"");
        assert(space@ =~= seq![' ']);
        assert(quote@ =~= seq!['"']);
    }
    let pat = key.to_owned().concat(space);
    let total = attributes.unicode_len();
    proof {
        assert(pat@ =~= key@ + seq![' ']);
        assert(attributes@.len() == total);
    }
    let at = match find_at(attributes, pat.as_str(), 0) {
        Some(at) => at,
        None => {
            return None;
        },
    };
    let after_key = at + pat.as_str().unicode_len();
    let q1 = match find_at(attributes, quote, after_key) {
        Some(q1) => q1,
        None => {
            return None;
        },
    };
    proof {
        assert(attributes@.subrange(q1 as int, q1 + 1) =~= seq!['"']);
        assert(q1 + 1 <= attributes@.len());
    }
    let q2 = match find_at(attributes, quote, q1 + 1) {
        Some(q2) => q2,
        None => {
            return None;
        },
    };
    proof {
        assert(attributes@.subrange(q2 as int, q2 + 1) =~= seq!['"']);
        assert(q2 < attributes@.len());
    }
    let value = attributes.substring_char(q1 + 1, q2);
    proof {
        assert(value@ =~= attributes@.subrange(q1 + 1, q2 as int));
    }
    Some(value.to_owned())
}

} // verus!
