//! Parsing of the state-history output.
//!
//! The state history is kept in a git repository; the driver layer runs the
//! plumbing commands and hands their text here.  A history listing consists
//! of header lines `hash|date|subject` interleaved with per-commit summary
//! lines that carry the number of changed files.

use vstd::prelude::*;
use vstd::string::*;
use crate::text::{
    contains_seq, contains_str, first_ix, lemma_first_ix_is, find_char, lines_spec, split_lines,
    tokens_spec, split_tokens, all_digits, digits_val, parse_u32,
};
use crate::types::GitCommit;

verus! {

pub open spec fn is_hex_digit(c: char) -> bool {
    ('0' <= c && c <= '9') || ('a' <= c && c <= 'f') || ('A' <= c && c <= 'F')
}

/// A commit reference accepted for history commands: at least seven
/// hexadecimal digits and nothing else.
pub open spec fn valid_hash_spec(h: Seq<char>) -> bool {
    h.len() >= 7 && forall|i: int| 0 <= i < h.len() ==> is_hex_digit(#[trigger] h[i])
}

/// Is `hash` an acceptable commit reference, as `valid_hash_spec` describes?
pub fn is_valid_hash(hash: &str) -> (r: bool)
    ensures
        r == valid_hash_spec(hash@),
{
    let len = hash.unicode_len();
    if len < 7 {
        return false;
    }
    let mut i: usize = 0;
    while i < len
        invariant
            len == hash@.len(),
            i <= len,
            forall|j: int| 0 <= j < i ==> is_hex_digit(#[trigger] hash@[j]),
        decreases len - i,
    {
        let c = hash.get_char(i);
        if !(('0' <= c && c <= '9') || ('a' <= c && c <= 'f') || ('A' <= c && c <= 'F')) {
            return false;
        }
        i += 1;
    }
    true
}

/// Spec-level view of one parsed commit.
pub struct GitCommitView {
    pub hash: Seq<char>,
    pub date: Seq<char>,
    pub message: Seq<char>,
    pub files_changed: u32,
}

pub open spec fn commit_view(c: GitCommit) -> GitCommitView {
    GitCommitView {
        hash: c.hash@,
        date: c.date@,
        message: c.message@,
        files_changed: c.files_changed,
    }
}

pub open spec fn commits_view(cs: Seq<GitCommit>) -> Seq<GitCommitView> {
    cs.map_values(|c: GitCommit| commit_view(c))
}

/// The hash, date and subject of a header line: the parts before the first
/// separator, between the first and the second, and everything after the
/// second; a line with fewer than two separators has no header.
pub open spec fn header_parts(line: Seq<char>) -> Option<(Seq<char>, Seq<char>, Seq<char>)> {
    let i1 = first_ix(line, '|');
    if i1 == line.len() {
        None
    } else {
        let rest = line.skip(i1 + 1);
        let i2 = first_ix(rest, '|');
        if i2 == rest.len() {
            None
        } else {
            Some((line.take(i1), rest.take(i2), rest.skip(i2 + 1)))
        }
    }
}

/// The number of changed files on a summary line: its first token, if that
/// is a number.
pub open spec fn files_changed_of(line: Seq<char>) -> u32 {
    let toks = tokens_spec(line);
    if toks.len() > 0 && all_digits(toks[0]) && digits_val(toks[0]) <= u32::MAX {
        digits_val(toks[0]) as u32
    } else {
        0
    }
}

pub open spec fn flush_pending(
    cs: Seq<GitCommitView>,
    pending: Option<(Seq<char>, Seq<char>, Seq<char>)>,
    files: u32,
) -> Seq<GitCommitView> {
    match pending {
        Some(c) => cs.push(
            GitCommitView { hash: c.0, date: c.1, message: c.2, files_changed: files },
        ),
        None => cs,
    }
}

/// One line's effect on the parse: a header line flushes the pending commit
/// with zero changed files and becomes pending itself; a summary line
/// flushes the pending commit with its file count; anything else changes
/// nothing.
pub open spec fn log_step(
    acc: (Seq<GitCommitView>, Option<(Seq<char>, Seq<char>, Seq<char>)>),
    line: Seq<char>,
) -> (Seq<GitCommitView>, Option<(Seq<char>, Seq<char>, Seq<char>)>) {
    if first_ix(line, '|') < line.len() && line.len() > 40 {
        (flush_pending(acc.0, acc.1, 0), header_parts(line))
    } else if contains_seq(line, "file"@) && contains_seq(line, "changed"@) {
        (flush_pending(acc.0, acc.1, files_changed_of(line)), None)
    } else {
        acc
    }
}

pub open spec fn log_fold(
    ls: Seq<Seq<char>>,
    acc: (Seq<GitCommitView>, Option<(Seq<char>, Seq<char>, Seq<char>)>),
) -> (Seq<GitCommitView>, Option<(Seq<char>, Seq<char>, Seq<char>)>)
    decreases ls.len(),
{
    if ls.len() == 0 {
        acc
    } else {
        log_fold(ls.skip(1), log_step(acc, ls[0]))
    }
}

/// The commits a whole history listing describes, in order.
pub open spec fn git_log_spec(text: Seq<char>) -> Seq<GitCommitView> {
    let f = log_fold(
        lines_spec(text),
        (Seq::empty(), None::<(Seq<char>, Seq<char>, Seq<char>)>),
    );
    flush_pending(f.0, f.1, 0)
}

pub open spec fn pending_view(p: Option<(String, String, String)>) -> Option<
    (Seq<char>, Seq<char>, Seq<char>),
> {
    match p {
        Some(c) => Some((c.0@, c.1@, c.2@)),
        None => None,
    }
}

/// Parse a history listing, as `git_log_spec` describes.
pub fn parse_git_log(text: &str) -> (r: Vec<GitCommit>)
    ensures
        commits_view(r@) == git_log_spec(text@),
{
    let lines = split_lines(text);
    let ghost ldv = lines.deep_view();
    let mut commits: Vec<GitCommit> = Vec::new();
    let mut pending: Option<(String, String, String)> = None;
    let n = lines.len();
    let mut j: usize = 0;
    proof {
        assert(ldv.skip(0) =~= ldv);
        assert(commits_view(commits@) =~= Seq::<GitCommitView>::empty());
    }
    while j < n
        invariant
            ldv == lines.deep_view(),
            n == lines@.len(),
            ldv.len() == n,
            j <= n,
            log_fold(ldv, (Seq::empty(), None::<(Seq<char>, Seq<char>, Seq<char>)>)) == log_fold(
                ldv.skip(j as int),
                (commits_view(commits@), pending_view(pending)),
            ),
        decreases n - j,
    {
        let ghost t = ldv.skip(j as int);
        proof {
            assert(t[0] == ldv[j as int]);
            assert(t.skip(1) =~= ldv.skip(j + 1));
        }
        let line = lines[j].as_str();
        let llen = line.unicode_len();
        let pipe = find_char(line, '|');
        let is_header = match pipe {
            Some(_) => llen > 40,
            None => false,
        };
        proof {
            match pipe {
                Some(i) => {
                    lemma_first_ix_is(line@, '|', i as int);
                },
                None => {
                    lemma_first_ix_is(line@, '|', llen as int);
                },
            }
        }
        if is_header {
            let i1 = match pipe {
                Some(i) => i,
                None => 0,
            };
            flush(&mut commits, &mut pending, 0);
            let rest = line.substring_char(i1 + 1, llen);
            proof {
                assert(rest@ =~= line@.skip(i1 + 1));
            }
            let rlen = rest.unicode_len();
            match find_char(rest, '|') {
                Some(i2) => {
                    proof {
                        lemma_first_ix_is(rest@, '|', i2 as int);
                    }
                    let hash = String::from_str(line.substring_char(0, i1));
                    let date = String::from_str(rest.substring_char(0, i2));
                    let msg = String::from_str(rest.substring_char(i2 + 1, rlen));
                    proof {
                        assert(line@.take(i1 as int) =~= line@.subrange(0, i1 as int));
                        assert(rest@.take(i2 as int) =~= rest@.subrange(0, i2 as int));
                        assert(rest@.skip(i2 + 1) =~= rest@.subrange(i2 + 1, rlen as int));
                    }
                    pending = Some((hash, date, msg));
                },
                None => {
                    proof {
                        lemma_first_ix_is(rest@, '|', rlen as int);
                    }
                    pending = None;
                },
            }
        } else if contains_str(line, "file") && contains_str(line, "changed") {
            let toks = split_tokens(line);
            let files: u32 = if toks.len() > 0 {
                match parse_u32(toks[0].as_str()) {
                    Some(v) => v,
                    None => 0,
                }
            } else {
                0
            };
            proof {
                assert(toks.deep_view().len() == toks@.len());
                if toks@.len() > 0 {
                    assert(toks.deep_view()[0] == toks@[0]@);
                }
                assert(files == files_changed_of(t[0]));
            }
            flush(&mut commits, &mut pending, files);
        }
        j += 1;
    }
    proof {
        assert(ldv.skip(n as int).len() == 0);
    }
    flush(&mut commits, &mut pending, 0);
    commits
}

/// Append the pending commit, if any, with the given file count.
fn flush(commits: &mut Vec<GitCommit>, pending: &mut Option<(String, String, String)>, files: u32)
    ensures
        commits_view(final(commits)@) == flush_pending(
            commits_view(old(commits)@),
            pending_view(*old(pending)),
            files,
        ),
        *final(pending) == None::<(String, String, String)>,
{
    let p = pending.take();
    match p {
        Some(c) => {
            let ghost g = (c.0@, c.1@, c.2@);
            commits.push(GitCommit { hash: c.0, date: c.1, message: c.2, files_changed: files });
            proof {
                assert(commits_view(commits@) =~= commits_view(old(commits)@).push(
                    GitCommitView { hash: g.0, date: g.1, message: g.2, files_changed: files },
                ));
            }
        },
        None => {
            proof {
                assert(commits_view(commits@) =~= commits_view(old(commits)@));
            }
        },
    }
}

} // verus!
