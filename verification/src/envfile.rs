//! Parsing and rewriting of `.env` files.
//!
//! The files themselves are read and written by the driver layer; the
//! parsing of assignments, the merging of new entries into an existing file
//! — comments and order preserved — and the extraction of the local API
//! endpoint are decided here.

use vstd::prelude::*;
use vstd::string::*;
use crate::text::{
    trimmed, trim_str, first_ix, lemma_first_ix_is, find_char, strip_char, strip_char_ends,
    lines_spec, split_lines, starts_with, starts_with_str, all_digits, digits_val, parse_u16,
    str_eq,
};

verus! {

/// Value of the first entry of `entries` named `key`, if any.
pub open spec fn env_value(
    entries: Seq<(Seq<char>, Seq<char>)>,
    key: Seq<char>,
) -> Option<Seq<char>>
    decreases entries.len(),
{
    if entries.len() == 0 {
        None
    } else if entries[0].0 == key {
        Some(entries[0].1)
    } else {
        env_value(entries.skip(1), key)
    }
}

proof fn lemma_env_value_skip(entries: Seq<(Seq<char>, Seq<char>)>, key: Seq<char>, i: int)
    requires
        0 <= i <= entries.len(),
        forall|j: int| 0 <= j < i ==> (#[trigger] entries[j]).0 != key,
    ensures
        env_value(entries, key) == env_value(entries.skip(i), key),
    decreases i,
{
    if i > 0 {
        assert(entries[0].0 != key);
        assert forall|j: int| 0 <= j < i - 1 implies (#[trigger] entries.skip(1)[j]).0 != key by {
            assert(entries.skip(1)[j] == entries[j + 1]);
        };
        lemma_env_value_skip(entries.skip(1), key, i - 1);
        assert(entries.skip(1).skip(i - 1) =~= entries.skip(i));
    } else {
        assert(entries.skip(0) =~= entries);
    }
}

/// First entry of `entries` named `key`, as the executable counterpart of
/// `env_value`.
pub fn env_lookup(entries: &Vec<(String, String)>, key: &str) -> (r: Option<String>)
    ensures
        match r {
            Some(v) => env_value(entries.deep_view(), key@) == Some(v@),
            None => env_value(entries.deep_view(), key@) is None,
        },
{
    let ghost h = entries.deep_view();
    let n = entries.len();
    let mut i: usize = 0;
    while i < n
        invariant
            h == entries.deep_view(),
            n == entries@.len(),
            h.len() == n,
            i <= n,
            forall|j: int| 0 <= j < i ==> (#[trigger] h[j]).0 != key@,
        decreases n - i,
    {
        if str_eq(&entries[i].0, key) {
            let v = entries[i].1.clone();
            proof {
                lemma_env_value_skip(h, key@, i as int);
                assert(h.skip(i as int)[0] == h[i as int]);
            }
            return Some(v);
        }
        i += 1;
    }
    proof {
        lemma_env_value_skip(h, key@, n as int);
        assert(h.skip(n as int).len() == 0);
    }
    None
}

/// The assignment one line of a `.env` file makes, if any: blank lines and
/// comments make none; a key is trimmed, a value trimmed and stripped of
/// surrounding double then single quotes.
pub open spec fn env_line_entry(line: Seq<char>) -> Option<(Seq<char>, Seq<char>)> {
    let t = trimmed(line);
    if t.len() == 0 || t[0] == '#' {
        None
    } else {
        let i = first_ix(t, '=');
        if i == t.len() {
            None
        } else {
            Some(
                (trimmed(t.take(i)), strip_char(strip_char(trimmed(t.skip(i + 1)), '"'), '\'')),
            )
        }
    }
}

/// Parse one line, as `env_line_entry` describes.
pub fn parse_env_line(line: &str) -> (r: Option<(String, String)>)
    ensures
        match r {
            Some(kv) => env_line_entry(line@) == Some((kv.0@, kv.1@)),
            None => env_line_entry(line@) is None,
        },
{
    let t = trim_str(line);
    let tlen = t.unicode_len();
    if tlen == 0 {
        return None;
    }
    if t.get_char(0) == '#' {
        return None;
    }
    match find_char(t, '=') {
        Some(i) => {
            proof {
                lemma_first_ix_is(t@, '=', i as int);
            }
            let key = trim_str(t.substring_char(0, i));
            let val0 = trim_str(t.substring_char(i + 1, tlen));
            let val1 = strip_char_ends(val0, '"');
            let val = strip_char_ends(val1, '\'');
            proof {
                assert(t@.take(i as int) =~= t@.subrange(0, i as int));
                assert(t@.skip(i + 1) =~= t@.subrange(i + 1, tlen as int));
            }
            Some((String::from_str(key), String::from_str(val)))
        },
        None => {
            proof {
                lemma_first_ix_is(t@, '=', tlen as int);
            }
            None
        },
    }
}

/// The assignments a whole `.env` file makes, in order; on repeated keys
/// the later assignment is the one a map built from this list keeps.
pub open spec fn env_entries_spec(ls: Seq<Seq<char>>) -> Seq<(Seq<char>, Seq<char>)>
    decreases ls.len(),
{
    if ls.len() == 0 {
        Seq::empty()
    } else {
        let rest = env_entries_spec(ls.skip(1));
        match env_line_entry(ls[0]) {
            Some(kv) => seq![kv] + rest,
            None => rest,
        }
    }
}

/// Parse a whole `.env` file, as `env_entries_spec` describes.
pub fn parse_env(content: &str) -> (r: Vec<(String, String)>)
    ensures
        r.deep_view() == env_entries_spec(lines_spec(content@)),
{
    let lines = split_lines(content);
    let ghost ldv = lines.deep_view();
    let mut r: Vec<(String, String)> = Vec::new();
    let n = lines.len();
    let mut j: usize = 0;
    proof {
        assert(ldv.skip(0) =~= ldv);
        assert(r.deep_view() =~= Seq::<(Seq<char>, Seq<char>)>::empty());
        assert(r.deep_view() + env_entries_spec(ldv) =~= env_entries_spec(ldv));
    }
    while j < n
        invariant
            ldv == lines.deep_view(),
            n == lines@.len(),
            ldv.len() == n,
            j <= n,
            env_entries_spec(ldv) == r.deep_view() + env_entries_spec(ldv.skip(j as int)),
        decreases n - j,
    {
        let ghost t = ldv.skip(j as int);
        let ghost r0 = r.deep_view();
        proof {
            assert(t[0] == ldv[j as int]);
            assert(t.skip(1) =~= ldv.skip(j + 1));
        }
        match parse_env_line(lines[j].as_str()) {
            Some(kv) => {
                let ghost gkv = (kv.0@, kv.1@);
                r.push(kv);
                proof {
                    assert(r.deep_view() =~= r0.push(gkv));
                    assert(r0 + (seq![gkv] + env_entries_spec(ldv.skip(j + 1))) =~= r.deep_view()
                        + env_entries_spec(ldv.skip(j + 1)));
                }
            },
            None => {},
        }
        j += 1;
    }
    proof {
        assert(ldv.skip(n as int).len() == 0);
        assert(env_entries_spec(ldv.skip(n as int)) =~= Seq::<(Seq<char>, Seq<char>)>::empty());
        assert(r.deep_view() + env_entries_spec(ldv.skip(n as int)) =~= r.deep_view());
    }
    r
}

/// How one existing line is rewritten by a merge: blank lines, comments and
/// non-assignments pass through; an assignment whose key is among the new
/// entries is replaced by `key=value` with the new value; every assignment's
/// key counts as written.
pub open spec fn merged_line(line: Seq<char>, entries: Seq<(Seq<char>, Seq<char>)>) -> (
    Seq<char>,
    Option<Seq<char>>,
) {
    let t = trimmed(line);
    if t.len() == 0 || t[0] == '#' {
        (line, None::<Seq<char>>)
    } else {
        let i = first_ix(t, '=');
        if i == t.len() {
            (line, None::<Seq<char>>)
        } else {
            let key = trimmed(t.take(i));
            match env_value(entries, key) {
                Some(v) => (key + "="@ + v, Some(key)),
                None => (line, Some(key)),
            }
        }
    }
}

/// The merge over the existing lines: each rewritten in place, collecting
/// the keys already present.
pub open spec fn merge_lines_spec(
    ls: Seq<Seq<char>>,
    entries: Seq<(Seq<char>, Seq<char>)>,
    out: Seq<Seq<char>>,
    written: Set<Seq<char>>,
) -> (Seq<Seq<char>>, Set<Seq<char>>)
    decreases ls.len(),
{
    if ls.len() == 0 {
        (out, written)
    } else {
        let lw = merged_line(ls[0], entries);
        let w2 = match lw.1 {
            Some(k) => written.insert(k),
            None => written,
        };
        merge_lines_spec(ls.skip(1), entries, out.push(lw.0), w2)
    }
}

/// The new entries whose keys the existing file did not have, appended as
/// `key=value` lines in entry order.
pub open spec fn append_new_spec(
    entries: Seq<(Seq<char>, Seq<char>)>,
    written: Set<Seq<char>>,
    out: Seq<Seq<char>>,
) -> Seq<Seq<char>>
    decreases entries.len(),
{
    if entries.len() == 0 {
        out
    } else {
        let out2 = if !written.contains(entries[0].0) {
            out.push(entries[0].0 + "="@ + entries[0].1)
        } else {
            out
        };
        append_new_spec(entries.skip(1), written, out2)
    }
}

/// Lines joined with single line breaks.
pub open spec fn join_nl(ls: Seq<Seq<char>>) -> Seq<char>
    decreases ls.len(),
{
    if ls.len() == 0 {
        Seq::empty()
    } else if ls.len() == 1 {
        ls[0]
    } else {
        ls[0] + "\n"@ + join_nl(ls.skip(1))
    }
}

proof fn lemma_join_nl_push(ls: Seq<Seq<char>>, x: Seq<char>)
    ensures
        join_nl(ls.push(x)) == (if ls.len() == 0 {
            x
        } else {
            join_nl(ls) + "\n"@ + x
        }),
    decreases ls.len(),
{
    if ls.len() == 0 {
        assert(ls.push(x)[0] == x);
    } else {
        assert(ls.push(x)[0] == ls[0]);
        assert(ls.push(x).skip(1) =~= ls.skip(1).push(x));
        lemma_join_nl_push(ls.skip(1), x);
        if ls.len() > 1 {
            assert(ls[0] + "\n"@ + (join_nl(ls.skip(1)) + "\n"@ + x) =~= (ls[0] + "\n"@ + join_nl(
                ls.skip(1),
            )) + "\n"@ + x);
        }
    }
}

/// The whole merged file: existing lines rewritten, missing entries
/// appended, joined with line breaks and ending in one.
pub open spec fn merge_env_spec(
    existing: Seq<char>,
    entries: Seq<(Seq<char>, Seq<char>)>,
) -> Seq<char> {
    let mw = merge_lines_spec(lines_spec(existing), entries, Seq::empty(), Set::empty());
    join_nl(append_new_spec(entries, mw.1, mw.0)) + "\n"@
}

/// Rewrite one existing line, as `merged_line` describes.
fn merge_one(line: &str, entries: &Vec<(String, String)>) -> (r: (String, Option<String>))
    ensures
        ({
            let mw = merged_line(line@, entries.deep_view());
            r.0@ == mw.0 && (match r.1 {
                Some(k) => mw.1 == Some(k@),
                None => mw.1 is None,
            })
        }),
{
    let t = trim_str(line);
    let tlen = t.unicode_len();
    if tlen == 0 {
        return (String::from_str(line), None);
    }
    if t.get_char(0) == '#' {
        return (String::from_str(line), None);
    }
    match find_char(t, '=') {
        Some(i) => {
            proof {
                lemma_first_ix_is(t@, '=', i as int);
            }
            let key = trim_str(t.substring_char(0, i));
            proof {
                assert(t@.take(i as int) =~= t@.subrange(0, i as int));
            }
            match env_lookup(entries, key) {
                Some(v) => {
                    let mut o = String::from_str(key);
                    o.append("=");
                    o.append(v.as_str());
                    (o, Some(String::from_str(key)))
                },
                None => (String::from_str(line), Some(String::from_str(key))),
            }
        },
        None => {
            proof {
                lemma_first_ix_is(t@, '=', tlen as int);
            }
            (String::from_str(line), None)
        },
    }
}

/// Is `key` among the collected keys?
fn contains_key(written: &Vec<String>, key: &str) -> (r: bool)
    ensures
        r == exists|i: int| 0 <= i < written@.len() && (#[trigger] written@[i])@ == key@,
{
    let n = written.len();
    let mut i: usize = 0;
    while i < n
        invariant
            n == written@.len(),
            i <= n,
            forall|j: int| 0 <= j < i ==> (#[trigger] written@[j])@ != key@,
        decreases n - i,
    {
        if str_eq(written[i].as_str(), key) {
            return true;
        }
        i += 1;
    }
    false
}

/// Merge `entries` into an existing `.env` file's text, as
/// `merge_env_spec` describes: existing assignments are updated in place,
/// comments, order and unrelated lines are preserved, and entries the file
/// did not have are appended.
pub fn merge_env(existing: &str, entries: &Vec<(String, String)>) -> (r: String)
    ensures
        r@ == merge_env_spec(existing@, entries.deep_view()),
{
    let ghost edv = entries.deep_view();
    let lines = split_lines(existing);
    let ghost ldv = lines.deep_view();
    let mut out: Vec<String> = Vec::new();
    let mut written: Vec<String> = Vec::new();
    let ghost mut wset = Set::<Seq<char>>::empty();
    let n = lines.len();
    let mut j: usize = 0;
    proof {
        assert(ldv.skip(0) =~= ldv);
        assert(out.deep_view() =~= Seq::<Seq<char>>::empty());
    }
    while j < n
        invariant
            ldv == lines.deep_view(),
            edv == entries.deep_view(),
            n == lines@.len(),
            ldv.len() == n,
            j <= n,
            merge_lines_spec(ldv, edv, Seq::empty(), Set::empty()) == merge_lines_spec(
                ldv.skip(j as int),
                edv,
                out.deep_view(),
                wset,
            ),
            forall|k: Seq<char>|
                #[trigger] wset.contains(k) <==> exists|i: int|
                    0 <= i < written@.len() && (#[trigger] written@[i])@ == k,
        decreases n - j,
    {
        let ghost t = ldv.skip(j as int);
        let ghost o0 = out.deep_view();
        proof {
            assert(t[0] == ldv[j as int]);
            assert(t.skip(1) =~= ldv.skip(j + 1));
        }
        let (l, k) = merge_one(lines[j].as_str(), entries);
        let ghost gl = l@;
        out.push(l);
        proof {
            assert(out.deep_view() =~= o0.push(gl));
        }
        match k {
            Some(key) => {
                let ghost gk = key@;
                let ghost ws0 = wset;
                let ghost w0 = written@;
                written.push(key);
                proof {
                    wset = ws0.insert(gk);
                    assert((written@[w0.len() as int])@ == gk);
                    assert forall|kk: Seq<char>| #[trigger] wset.contains(kk) implies exists|i: int|
                        0 <= i < written@.len() && (#[trigger] written@[i])@ == kk by {
                        if kk == gk {
                            assert((written@[w0.len() as int])@ == kk);
                        } else {
                            assert(ws0.contains(kk));
                            let i = choose|i: int| 0 <= i < w0.len() && (#[trigger] w0[i])@ == kk;
                            assert((written@[i])@ == kk);
                        }
                    };
                    assert forall|kk: Seq<char>|
                        (exists|i: int|
                            0 <= i < written@.len() && (#[trigger] written@[i])@
                                == kk) implies #[trigger] wset.contains(kk) by {
                        let i = choose|i: int|
                            0 <= i < written@.len() && (#[trigger] written@[i])@ == kk;
                        if i < w0.len() {
                            assert((w0[i])@ == kk);
                            assert(ws0.contains(kk));
                        } else {
                            assert(kk == gk);
                        }
                    };
                }
            },
            None => {},
        }
        j += 1;
    }
    proof {
        assert(ldv.skip(n as int).len() == 0);
    }
    let ghost merged = merge_lines_spec(ldv, edv, Seq::empty(), Set::empty());
    proof {
        assert(merged.0 == out.deep_view());
        assert(merged.1 == wset);
    }
    // append entries the file did not have
    let m = entries.len();
    let mut i: usize = 0;
    proof {
        assert(edv.skip(0) =~= edv);
    }
    while i < m
        invariant
            edv == entries.deep_view(),
            m == entries@.len(),
            edv.len() == m,
            i <= m,
            forall|k: Seq<char>|
                #[trigger] wset.contains(k) <==> exists|ii: int|
                    0 <= ii < written@.len() && (#[trigger] written@[ii])@ == k,
            append_new_spec(edv, wset, merged.0) == append_new_spec(
                edv.skip(i as int),
                wset,
                out.deep_view(),
            ),
        decreases m - i,
    {
        let ghost t = edv.skip(i as int);
        let ghost o0 = out.deep_view();
        proof {
            assert(t[0] == edv[i as int]);
            assert(t.skip(1) =~= edv.skip(i + 1));
        }
        if !contains_key(&written, entries[i].0.as_str()) {
            let mut l = entries[i].0.clone();
            l.append("=");
            l.append(entries[i].1.as_str());
            let ghost gl = l@;
            out.push(l);
            proof {
                assert(!wset.contains(edv[i as int].0));
                assert(out.deep_view() =~= o0.push(gl));
            }
        } else {
            proof {
                assert(wset.contains(edv[i as int].0));
            }
        }
        i += 1;
    }
    proof {
        assert(edv.skip(m as int).len() == 0);
    }
    let ghost joined = append_new_spec(edv, wset, merged.0);
    proof {
        assert(joined == out.deep_view());
    }
    // join with line breaks, ending in one
    let mut acc = String::new();
    let q = out.len();
    let mut p: usize = 0;
    proof {
        assert(out.deep_view().take(0) =~= Seq::<Seq<char>>::empty());
        assert(acc@ =~= join_nl(out.deep_view().take(0)));
    }
    while p < q
        invariant
            joined == out.deep_view(),
            q == out@.len(),
            out.deep_view().len() == q,
            p <= q,
            acc@ == join_nl(out.deep_view().take(p as int)),
        decreases q - p,
    {
        proof {
            lemma_join_nl_push(out.deep_view().take(p as int), out.deep_view()[p as int]);
            assert(out.deep_view().take(p + 1) =~= out.deep_view().take(p as int).push(
                out.deep_view()[p as int],
            ));
        }
        if p > 0 {
            acc.append("\n");
        }
        acc.append(out[p].as_str());
        p += 1;
    }
    proof {
        assert(out.deep_view().take(q as int) =~= out.deep_view());
    }
    acc.append("\n");
    acc
}

/// One line's effect on the local API endpoint settings: an `API_PORT`
/// assignment with a numeric value sets the port, an `API_KEY` assignment
/// sets the key, anything else changes nothing.
pub open spec fn api_line_step(acc: (u16, Seq<char>), line: Seq<char>) -> (u16, Seq<char>) {
    let t = trimmed(line);
    let port = if starts_with(t, "API_PORT="@) {
        let v = strip_char(trimmed(t.skip(9)), '"');
        if all_digits(v) && digits_val(v) <= u16::MAX {
            digits_val(v) as u16
        } else {
            acc.0
        }
    } else {
        acc.0
    };
    let key = if starts_with(t, "API_KEY="@) {
        strip_char(trimmed(t.skip(8)), '"')
    } else {
        acc.1
    };
    (port, key)
}

pub open spec fn api_config_spec(ls: Seq<Seq<char>>, acc: (u16, Seq<char>)) -> (u16, Seq<char>)
    decreases ls.len(),
{
    if ls.len() == 0 {
        acc
    } else {
        api_config_spec(ls.skip(1), api_line_step(acc, ls[0]))
    }
}

/// The local API endpoint the engine listens on, read from the `.env`
/// file: port 3001 and an empty key unless the file says otherwise.
pub fn extract_api_config(content: &str) -> (r: (u16, String))
    ensures
        (r.0, r.1@) == api_config_spec(lines_spec(content@), (3001u16, Seq::<char>::empty())),
{
    let lines = split_lines(content);
    let ghost ldv = lines.deep_view();
    let mut port: u16 = 3001;
    let mut key: String = String::new();
    let n = lines.len();
    let mut j: usize = 0;
    proof {
        assert(ldv.skip(0) =~= ldv);
    }
    while j < n
        invariant
            ldv == lines.deep_view(),
            n == lines@.len(),
            ldv.len() == n,
            j <= n,
            api_config_spec(ldv, (3001u16, Seq::<char>::empty())) == api_config_spec(
                ldv.skip(j as int),
                (port, key@),
            ),
        decreases n - j,
    {
        let ghost t = ldv.skip(j as int);
        proof {
            assert(t[0] == ldv[j as int]);
            assert(t.skip(1) =~= ldv.skip(j + 1));
            reveal_strlit("API_PORT=");
            reveal_strlit("API_KEY=");
        }
        let line = trim_str(lines[j].as_str());
        let llen = line.unicode_len();
        if starts_with_str(line, "API_PORT=") {
            let raw = trim_str(line.substring_char(9, llen));
            let v = strip_char_ends(raw, '"');
            proof {
                assert(line@.skip(9) =~= line@.subrange(9, llen as int));
            }
            match parse_u16(v) {
                Some(p) => {
                    port = p;
                },
                None => {},
            }
        }
        if starts_with_str(line, "API_KEY=") {
            let raw = trim_str(line.substring_char(8, llen));
            let v = strip_char_ends(raw, '"');
            proof {
                assert(line@.skip(8) =~= line@.subrange(8, llen as int));
            }
            key = String::from_str(v);
        }
        j += 1;
    }
    proof {
        assert(ldv.skip(n as int).len() == 0);
    }
    (port, key)
}

} // verus!
