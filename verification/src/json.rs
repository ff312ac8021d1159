//! Best-effort flat-JSON object extraction: given a single-level JSON
//! object text, return its key-value pairs as raw text, quotes stripped
//! from quoted values, scanning character by character and toggling an
//! in-quotes flag on each unescaped `"`.
//!
//! The text must start with `{`, else there is no result.  Behavior on
//! nested objects or arrays is undefined and out of scope: handlers that
//! need structured JSON should use a real JSON library, not this scraper.
//! On malformed text — a key or value region of negative width, or a
//! separator with no key before it — the scan stops with no result.

use crate::text::chars_vec;
use crate::text::string_from_chars;
use vstd::prelude::*;

verus! {

/// Scanner state: whether the scan stands inside a quoted run, where the
/// value region being gathered starts, the key waiting for its value, and
/// the pairs gathered so far.
pub struct JState {
    pub in_quotes: bool,
    pub value_start: int,
    pub last_key: Option<Seq<char>>,
    pub pairs: Seq<(Seq<char>, Seq<char>)>,
}

/// The scanner state before any character is read.
pub open spec fn json_init() -> JState {
    JState { in_quotes: false, value_start: 1, last_key: None, pairs: Seq::empty() }
}

/// One scan step over `s[i]`; `None` aborts the whole scan.
pub open spec fn json_step(s: Seq<char>, i: int, st: JState) -> Option<JState> {
    let c = s[i];
    if c == '"' {
        if i == 0 || s[i - 1] != '\\' {
            Some(JState { in_quotes: !st.in_quotes, ..st })
        } else {
            Some(st)
        }
    } else if !st.in_quotes && c == ':' {
        if st.value_start + 1 <= i - 1 {
            Some(
                JState {
                    value_start: i + 1,
                    last_key: Some(s.subrange(st.value_start + 1, i - 1)),
                    ..st
                },
            )
        } else {
            None
        }
    } else if !st.in_quotes && (c == ',' || c == '}') {
        match st.last_key {
            None => None,
            Some(k) => {
                let quoted = st.value_start + 1 <= i - 1 && s[st.value_start] == '"'
                    && s[i - 1] == '"';
                let val = if quoted {
                    s.subrange(st.value_start + 1, i - 1)
                } else {
                    s.subrange(st.value_start, i)
                };
                Some(
                    JState {
                        value_start: i + 1,
                        last_key: None,
                        pairs: st.pairs.push((k, val)),
                        ..st
                    },
                )
            },
        }
    } else {
        Some(st)
    }
}

/// Scan `s[i..]` from state `st` to the final state, or abort.
pub open spec fn json_scan(s: Seq<char>, i: int, st: JState) -> Option<JState>
    decreases s.len() - i,
{
    if i < 0 || i >= s.len() {
        Some(st)
    } else {
        match json_step(s, i, st) {
            None => None,
            Some(st2) => json_scan(s, i + 1, st2),
        }
    }
}

/// The key-value pairs scraped from `s`, in order of appearance; `None`
/// when `s` does not start with `{` or the scan aborts.
pub open spec fn json_pairs(s: Seq<char>) -> Option<Seq<(Seq<char>, Seq<char>)>> {
    if s.len() == 0 || s[0] != '{' {
        None
    } else {
        match json_scan(s, 0, json_init()) {
            Some(st) => Some(st.pairs),
            None => None,
        }
    }
}

/// The key region the executable scanner tracks, as the spec sees it.
pub open spec fn key_view(lk: Option<(usize, usize)>, s: Seq<char>) -> Option<
    Seq<char>,
> {
    match lk {
        Some(ab) => Some(s.subrange(ab.0 as int, ab.1 as int)),
        None => None,
    }
}

/// Extract the key-value pairs of the flat JSON object text `json`:
/// exactly the pairs [`json_pairs`] assigns to it, or `None` when that
/// scan has no result.
pub fn map_json(json: &str) -> (r: Option<Vec<(String, String)>>)
    ensures
        match r {
            Some(v) => json_pairs(json@) == Some(
                v@.map_values(|p: (String, String)| (p.0@, p.1@)),
            ),
            None => json_pairs(json@) is None,
        },
{
    let v = chars_vec(json);
    if v.len() == 0 {
        return None;
    }
    if v[0] != '{' {
        return None;
    }
    let mut in_quotes = false;
    let mut value_start: usize = 1;
    let mut last_key: Option<(usize, usize)> = None;
    let mut pairs: Vec<(String, String)> = Vec::new();
    let mut i: usize = 0;
    proof {
        assert(pairs@.map_values(|p: (String, String)| (p.0@, p.1@))
            =~= Seq::<(Seq<char>, Seq<char>)>::empty());
    }
    while i < v.len()
        invariant
            v@ == json@,
            v@.len() > 0,
            v@[0] == '{',
            i <= v@.len(),
            1 <= value_start,
            value_start as int <= (if i == 0 {
                1int
            } else {
                i as int
            }),
            match last_key {
                Some(ab) => ab.0 <= ab.1 <= v@.len(),
                None => true,
            },
            json_scan(v@, 0, json_init()) == json_scan(
                v@,
                i as int,
                JState {
                    in_quotes: in_quotes,
                    value_start: value_start as int,
                    last_key: key_view(last_key, v@),
                    pairs: pairs@.map_values(|p: (String, String)| (p.0@, p.1@)),
                },
            ),
        decreases v@.len() - i,
    {
        let ghost st = JState {
            in_quotes: in_quotes,
            value_start: value_start as int,
            last_key: key_view(last_key, v@),
            pairs: pairs@.map_values(|p: (String, String)| (p.0@, p.1@)),
        };
        let c = v[i];
        proof {
            if i == 0 {
                assert(c == '{');
            }
        }
        if c == '"' {
            if i == 0 || v[i - 1] != '\\' {
                in_quotes = !in_quotes;
            }
        } else if !in_quotes && c == ':' {
            if i >= 2 && value_start <= i - 2 {
                last_key = Some((value_start + 1, i - 1));
                value_start = i + 1;
            } else {
                proof {
                    assert(json_step(v@, i as int, st) is None);
                }
                return None;
            }
        } else if !in_quotes && (c == ',' || c == '}') {
            match last_key {
                None => {
                    proof {
                        assert(json_step(v@, i as int, st) is None);
                    }
                    return None;
                },
                Some(ab) => {
                    let key = string_from_chars(&v, ab.0, ab.1);
                    let quoted = i >= 2 && value_start <= i - 2 && v[value_start]
                        == '"' && v[i - 1] == '"';
                    let val = if quoted {
                        string_from_chars(&v, value_start + 1, i - 1)
                    } else {
                        string_from_chars(&v, value_start, i)
                    };
                    let ghost pairs_prev = pairs@;
                    pairs.push((key, val));
                    proof {
                        assert(pairs@.map_values(|p: (String, String)| (p.0@, p.1@))
                            =~= pairs_prev.map_values(
                            |p: (String, String)| (p.0@, p.1@),
                        ).push((key@, val@)));
                    }
                    last_key = None;
                    value_start = i + 1;
                },
            }
        }
        i = i + 1;
    }
    proof {
        assert(json_scan(v@, v@.len() as int, JState {
            in_quotes: in_quotes,
            value_start: value_start as int,
            last_key: key_view(last_key, v@),
            pairs: pairs@.map_values(|p: (String, String)| (p.0@, p.1@)),
        }) is Some);
    }
    Some(pairs)
}

} // verus!
