//! Parsing of the seed file's header.
//!
//! The seed file is the soul's root document; its header lines carry the
//! birth date, the session count, the model and the current state.  The
//! driver layer reads the file and hands its text here.

use vstd::prelude::*;
use vstd::string::*;
use crate::text::{
    matches_at, contains_seq, contains_str, starts_with, starts_with_str, trimmed, trim_str,
    first_ix, lemma_first_ix_is, find_char, find_sub, lines_spec, split_lines, tokens_spec,
    split_tokens, all_digits, digits_val, parse_u32,
};
use crate::types::SoulStatus;

verus! {

/// Index of the first occurrence of `p` in `s`, or `s.len()` if there is
/// none.
pub open spec fn first_match_ix(s: Seq<char>, p: Seq<char>) -> int
    decreases s.len(),
{
    if matches_at(s, 0, p) {
        0
    } else if s.len() == 0 {
        0
    } else {
        1 + first_match_ix(s.skip(1), p)
    }
}

pub proof fn lemma_first_match_at(s: Seq<char>, p: Seq<char>, k: int)
    requires
        0 <= k <= s.len(),
        matches_at(s, k, p),
        forall|j: int| 0 <= j < k ==> !matches_at(s, j, p),
    ensures
        first_match_ix(s, p) == k,
    decreases k,
{
    if k > 0 {
        assert(!matches_at(s, 0, p));
        assert(s.len() > 0);
        assert(matches_at(s.skip(1), k - 1, p)) by {
            assert(s.skip(1).subrange(k - 1, k - 1 + p.len()) =~= s.subrange(k, k + p.len()));
        }
        assert forall|j: int| 0 <= j < k - 1 implies !matches_at(s.skip(1), j, p) by {
            if matches_at(s.skip(1), j, p) {
                assert(matches_at(s, j + 1, p)) by {
                    assert(s.subrange(j + 1, j + 1 + p.len()) =~= s.skip(1).subrange(
                        j,
                        j + p.len(),
                    ));
                }
            }
        };
        lemma_first_match_at(s.skip(1), p, k - 1);
    }
}

pub proof fn lemma_first_match_none(s: Seq<char>, p: Seq<char>)
    requires
        forall|j: int| !matches_at(s, j, p),
    ensures
        first_match_ix(s, p) == s.len(),
    decreases s.len(),
{
    if s.len() > 0 {
        assert forall|j: int| !matches_at(s.skip(1), j, p) by {
            if 0 <= j && j + p.len() <= s.skip(1).len() && matches_at(s.skip(1), j, p) {
                assert(matches_at(s, j + 1, p)) by {
                    assert(s.subrange(j + 1, j + 1 + p.len()) =~= s.skip(1).subrange(
                        j,
                        j + p.len(),
                    ));
                }
            }
        };
        lemma_first_match_none(s.skip(1), p);
    }
}

/// The value a header line carries for a keyword pair: the text after the
/// first occurrence of either keyword — the first-language keyword wins —
/// cut at the next field separator, taken after the keyword's colon up to
/// any further colon, trimmed.  `None` when the line has neither keyword.
pub open spec fn extract_field_spec(line: Seq<char>, kw_a: Seq<char>, kw_b: Seq<char>) -> Option<
    Seq<char>,
> {
    if !contains_seq(line, kw_a) && !contains_seq(line, kw_b) {
        None
    } else {
        let idx = if contains_seq(line, kw_a) {
            first_match_ix(line, kw_a)
        } else {
            first_match_ix(line, kw_b)
        };
        let rest = line.skip(idx);
        let upto = rest.take(first_ix(rest, '|'));
        let c1 = first_ix(upto, ':');
        if c1 == upto.len() {
            Some(Seq::<char>::empty())
        } else {
            let after = upto.skip(c1 + 1);
            Some(trimmed(after.take(first_ix(after, ':'))))
        }
    }
}

/// Extract a keyword field from one line, as `extract_field_spec`
/// describes.
fn extract_field(line: &str, kw_a: &str, kw_b: &str) -> (r: Option<String>)
    ensures
        match r {
            Some(v) => extract_field_spec(line@, kw_a@, kw_b@) == Some(v@),
            None => extract_field_spec(line@, kw_a@, kw_b@) is None,
        },
{
    let llen = line.unicode_len();
    let idx: usize = match find_sub(line, kw_a) {
        Some(i) => {
            proof {
                lemma_first_match_at(line@, kw_a@, i as int);
            }
            i
        },
        None => {
            match find_sub(line, kw_b) {
                Some(i) => {
                    proof {
                        lemma_first_match_at(line@, kw_b@, i as int);
                    }
                    i
                },
                None => {
                    return None;
                },
            }
        },
    };
    let rest = line.substring_char(idx, llen);
    proof {
        assert(rest@ =~= line@.skip(idx as int));
    }
    let rlen = rest.unicode_len();
    let i1: usize = match find_char(rest, '|') {
        Some(i) => {
            proof {
                lemma_first_ix_is(rest@, '|', i as int);
            }
            i
        },
        None => {
            proof {
                lemma_first_ix_is(rest@, '|', rlen as int);
            }
            rlen
        },
    };
    let upto = rest.substring_char(0, i1);
    proof {
        assert(upto@ =~= rest@.take(i1 as int));
    }
    let ulen = upto.unicode_len();
    match find_char(upto, ':') {
        Some(c1) => {
            proof {
                lemma_first_ix_is(upto@, ':', c1 as int);
            }
            let after = upto.substring_char(c1 + 1, ulen);
            proof {
                assert(after@ =~= upto@.skip(c1 + 1));
            }
            let alen = after.unicode_len();
            let c2: usize = match find_char(after, ':') {
                Some(i) => {
                    proof {
                        lemma_first_ix_is(after@, ':', i as int);
                    }
                    i
                },
                None => {
                    proof {
                        lemma_first_ix_is(after@, ':', alen as int);
                    }
                    alen
                },
            };
            let seg = after.substring_char(0, c2);
            proof {
                assert(seg@ =~= after@.take(c2 as int));
            }
            Some(String::from_str(trim_str(seg)))
        },
        None => {
            proof {
                lemma_first_ix_is(upto@, ':', ulen as int);
            }
            Some(String::new())
        },
    }
}

/// One whitespace token's effect on the birth date and session count: a
/// token carrying a birth keyword sets the date, one carrying the session
/// keyword sets the count — zero when its value is not a number.
pub open spec fn born_sessions_step(acc: (Seq<char>, u32), tok: Seq<char>) -> (Seq<char>, u32) {
    let b = if starts_with(tok, "#geboren:"@) {
        tok.skip(9)
    } else if starts_with(tok, "#born:"@) {
        tok.skip(6)
    } else {
        acc.0
    };
    let s = if starts_with(tok, "#sessions:"@) {
        let v = tok.skip(10);
        if all_digits(v) && digits_val(v) <= u32::MAX {
            digits_val(v) as u32
        } else {
            0u32
        }
    } else {
        acc.1
    };
    (b, s)
}

pub open spec fn born_sessions_fold(toks: Seq<Seq<char>>, acc: (Seq<char>, u32)) -> (
    Seq<char>,
    u32,
)
    decreases toks.len(),
{
    if toks.len() == 0 {
        acc
    } else {
        born_sessions_fold(toks.skip(1), born_sessions_step(acc, toks[0]))
    }
}

/// One line's effect on the parsed header fields
/// `(born, sessions, model, state)`.
pub open spec fn seed_line_step(
    acc: (Seq<char>, u32, Seq<char>, Seq<char>),
    line: Seq<char>,
) -> (Seq<char>, u32, Seq<char>, Seq<char>) {
    if starts_with(line, "#SEED"@) {
        acc
    } else {
        let bs = if starts_with(line, "#geboren:"@) || starts_with(line, "#born:"@) {
            born_sessions_fold(tokens_spec(line), (acc.0, acc.1))
        } else {
            (acc.0, acc.1)
        };
        let model = match extract_field_spec(line, "modell:"@, "model:"@) {
            Some(v) => v,
            None => acc.2,
        };
        let state = match extract_field_spec(line, "zustand:"@, "state:"@) {
            Some(v) => v,
            None => acc.3,
        };
        (bs.0, bs.1, model, state)
    }
}

pub open spec fn seed_fold(
    ls: Seq<Seq<char>>,
    acc: (Seq<char>, u32, Seq<char>, Seq<char>),
) -> (Seq<char>, u32, Seq<char>, Seq<char>)
    decreases ls.len(),
{
    if ls.len() == 0 {
        acc
    } else {
        seed_fold(ls.skip(1), seed_line_step(acc, ls[0]))
    }
}

pub open spec fn initial_seed_acc() -> (Seq<char>, u32, Seq<char>, Seq<char>) {
    ("unknown"@, 0u32, "unknown"@, Seq::<char>::empty())
}

/// Parse the seed file's header into a status summary: the fields collected
/// line by line by `seed_fold`, the mood derived from the state's first
/// comma-separated part, and the name from the project marker.
pub fn parse_soul_status(content: &str, seed_size: u64) -> (r: SoulStatus)
    ensures
        ({
            let acc = seed_fold(lines_spec(content@), initial_seed_acc());
            &&& r.born@ == acc.0
            &&& r.sessions == acc.1
            &&& r.model@ == acc.2
            &&& r.state@ == acc.3
            &&& r.mood@ == (if acc.3.len() > 0 {
                trimmed(acc.3.take(first_ix(acc.3, ',')))
            } else {
                Seq::<char>::empty()
            })
            &&& r.name@ == (if contains_seq(content@, "projekt:seele"@) || contains_seq(
                content@,
                "project:soul"@,
            ) {
                "Seele"@
            } else {
                "Soul"@
            })
            &&& r.seed_size == seed_size
        }),
{
    let lines = split_lines(content);
    let ghost ldv = lines.deep_view();
    let mut born = String::from_str("unknown");
    let mut sessions: u32 = 0;
    let mut model = String::from_str("unknown");
    let mut state = String::new();
    let n = lines.len();
    let mut j: usize = 0;
    proof {
        assert(ldv.skip(0) =~= ldv);
    }
    while j < n
        invariant
            ldv == lines.deep_view(),
            n == lines@.len(),
            ldv.len() == n,
            j <= n,
            seed_fold(ldv, initial_seed_acc()) == seed_fold(
                ldv.skip(j as int),
                (born@, sessions, model@, state@),
            ),
        decreases n - j,
    {
        let ghost t = ldv.skip(j as int);
        proof {
            assert(t[0] == ldv[j as int]);
            assert(t.skip(1) =~= ldv.skip(j + 1));
        }
        let line = lines[j].as_str();
        if starts_with_str(line, "#SEED") {
            j += 1;
            continue ;
        }
        if starts_with_str(line, "#geboren:") || starts_with_str(line, "#born:") {
            let toks = split_tokens(line);
            let ghost tdv = toks.deep_view();
            let m = toks.len();
            let mut k: usize = 0;
            let ghost acc0 = (born@, sessions);
            proof {
                assert(tdv.skip(0) =~= tdv);
            }
            while k < m
                invariant
                    tdv == toks.deep_view(),
                    m == toks@.len(),
                    tdv.len() == m,
                    k <= m,
                    born_sessions_fold(tdv, acc0) == born_sessions_fold(
                        tdv.skip(k as int),
                        (born@, sessions),
                    ),
                decreases m - k,
            {
                let ghost tt = tdv.skip(k as int);
                proof {
                    assert(tt[0] == tdv[k as int]);
                    assert(tt.skip(1) =~= tdv.skip(k + 1));
                    reveal_strlit("#geboren:");
                    reveal_strlit("#born:");
                    reveal_strlit("#sessions:");
                }
                let tok = toks[k].as_str();
                let tklen = tok.unicode_len();
                if starts_with_str(tok, "#geboren:") {
                    born = String::from_str(tok.substring_char(9, tklen));
                    proof {
                        assert(born@ =~= tok@.skip(9));
                    }
                } else if starts_with_str(tok, "#born:") {
                    born = String::from_str(tok.substring_char(6, tklen));
                    proof {
                        assert(born@ =~= tok@.skip(6));
                    }
                }
                if starts_with_str(tok, "#sessions:") {
                    let v = tok.substring_char(10, tklen);
                    proof {
                        assert(v@ =~= tok@.skip(10));
                    }
                    sessions = match parse_u32(v) {
                        Some(x) => x,
                        None => 0,
                    };
                }
                k += 1;
            }
            proof {
                assert(tdv.skip(m as int).len() == 0);
                assert(born_sessions_fold(tdv, acc0) == (born@, sessions));
            }
        }
        match extract_field(line, "modell:", "model:") {
            Some(v) => {
                model = v;
            },
            None => {},
        }
        match extract_field(line, "zustand:", "state:") {
            Some(v) => {
                state = v;
            },
            None => {},
        }
        j += 1;
    }
    proof {
        assert(ldv.skip(n as int).len() == 0);
    }
    let slen = state.as_str().unicode_len();
    let mood: String = if slen == 0 {
        String::new()
    } else {
        let c = match find_char(state.as_str(), ',') {
            Some(i) => {
                proof {
                    lemma_first_ix_is(state@, ',', i as int);
                }
                i
            },
            None => {
                proof {
                    lemma_first_ix_is(state@, ',', slen as int);
                }
                slen
            },
        };
        let part = state.as_str().substring_char(0, c);
        proof {
            assert(part@ =~= state@.take(c as int));
        }
        String::from_str(trim_str(part))
    };
    let name = if contains_str(content, "projekt:seele") || contains_str(content, "project:soul") {
        String::from_str("Seele")
    } else {
        String::from_str("Soul")
    };
    SoulStatus { name, born, sessions, model, state, mood, seed_size }
}

} // verus!
