//! Terminal-session registry.
//!
//! `PtyManager` owns the bookkeeping for the interactive shell sessions: it
//! hands out process-unique, strictly increasing integer handles, tracks
//! which sessions are open, and decides which operations are admitted.  The
//! pseudo-terminal itself, the spawned shell and the two per-session workers
//! live in the unverified driver layer; that layer registers a session here
//! after a successful spawn, asks this registry before every write or resize,
//! and terminates the child of every handle this registry tells it to drop.
//!
//! The curated environment handed to a spawned shell is computed here as
//! well: a fixed set of terminal-identification variables plus a small
//! allow-list inherited from the host process.  Secret-bearing variables are
//! withheld simply by not being on the allow-list.

use vstd::prelude::*;
use vstd::string::*;
use crate::envfile::{env_value, env_lookup};

verus! {

/// Errors of the session operations.
#[derive(Clone, Copy, Debug, PartialEq, Eq, Structural)]
pub enum PtyError {
    /// The session handle is not registered.
    NotFound,
    /// The pseudo-terminal could not be opened or the shell not spawned.
    SpawnError,
    /// Writing to the session's input stream failed.
    WriteError,
    /// Propagating a size change to the pseudo-terminal failed.
    ResizeError,
}

/// Registry of active terminal sessions.
pub struct PtyManager {
    next_id: u32,
    open_ids: Vec<u32>,
    soul_path: String,
    allocated: Ghost<Seq<u32>>,
}

impl PtyManager {
    /// The handle the next created session will get.
    pub closed spec fn next_id_spec(self) -> u32 {
        self.next_id
    }

    /// Handles of the currently open sessions, in creation order.
    pub closed spec fn open_spec(self) -> Seq<u32> {
        self.open_ids@
    }

    /// Every handle ever returned by `create`, in order.
    pub closed spec fn allocated_spec(self) -> Seq<u32> {
        self.allocated@
    }

    /// The working directory given to every spawned shell.
    pub closed spec fn soul_path_spec(self) -> Seq<char> {
        self.soul_path@
    }

    /// Registry invariant: handles are positive, handed out in strictly
    /// increasing order, always below the next free handle, and the open
    /// sessions are among the allocated ones, still in creation order.
    pub open spec fn wf(self) -> bool {
        &&& 1 <= self.next_id_spec()
        &&& forall|i: int, j: int|
            0 <= i < j < self.allocated_spec().len() ==> #[trigger] self.allocated_spec()[i]
                < #[trigger] self.allocated_spec()[j]
        &&& forall|i: int|
            0 <= i < self.allocated_spec().len() ==> 1 <= #[trigger] self.allocated_spec()[i]
                < self.next_id_spec()
        &&& forall|i: int, j: int|
            0 <= i < j < self.open_spec().len() ==> #[trigger] self.open_spec()[i]
                < #[trigger] self.open_spec()[j]
        &&& forall|i: int|
            0 <= i < self.open_spec().len() ==> self.allocated_spec().contains(
                #[trigger] self.open_spec()[i],
            )
    }

    pub fn new(soul_path: String) -> (r: PtyManager)
        ensures
            r.wf(),
            r.next_id_spec() == 1,
            r.open_spec() == Seq::<u32>::empty(),
            r.allocated_spec() == Seq::<u32>::empty(),
            r.soul_path_spec() == soul_path@,
    {
        PtyManager {
            next_id: 1,
            open_ids: Vec::new(),
            soul_path,
            allocated: Ghost(Seq::empty()),
        }
    }

    /// Register a new session and return its handle.
    ///
    /// Handles start at 1, increase strictly and are never reused within the
    /// registry's lifetime.  The driver calls this only after the
    /// pseudo-terminal was opened and the shell spawned successfully.
    pub fn create(&mut self) -> (id: u32)
        requires
            old(self).wf(),
            old(self).next_id_spec() < u32::MAX,
        ensures
            final(self).wf(),
            id == old(self).next_id_spec(),
            1 <= id,
            final(self).next_id_spec() == id + 1,
            final(self).allocated_spec() == old(self).allocated_spec().push(id),
            final(self).open_spec() == old(self).open_spec().push(id),
            final(self).soul_path_spec() == old(self).soul_path_spec(),
            !old(self).allocated_spec().contains(id),
            forall|i: int|
                0 <= i < old(self).allocated_spec().len() ==> #[trigger] old(
                    self,
                ).allocated_spec()[i] < id,
    {
        let id = self.next_id;
        self.next_id = self.next_id + 1;
        self.open_ids.push(id);
        proof {
            self.allocated = Ghost(self.allocated@.push(id));
            let a0 = old(self).allocated_spec();
            let a1 = self.allocated_spec();
            assert(forall|i: int| 0 <= i < a0.len() ==> a1[i] == a0[i]);
            assert(a1[a0.len() as int] == id);
            assert(forall|i: int|
                0 <= i < old(self).open_spec().len() ==> self.open_spec()[i] == old(
                    self,
                ).open_spec()[i]);
            assert forall|i: int| 0 <= i < self.open_spec().len() implies a1.contains(
                #[trigger] self.open_spec()[i],
            ) by {
                if i < old(self).open_spec().len() {
                    let x = old(self).open_spec()[i];
                    let k = choose|k: int| 0 <= k < a0.len() && a0[k] == x;
                    assert(a1[k] == x);
                } else {
                    assert(a1[a0.len() as int] == id);
                }
            };
            if a0.contains(id) {
                let k = choose|k: int| 0 <= k < a0.len() && a0[k] == id;
                assert(a0[k] < old(self).next_id_spec());
            }
        }
        id
    }

    /// Position of `id` among the open sessions, if present.
    fn index_of(&self, id: u32) -> (r: Option<usize>)
        ensures
            match r {
                Some(i) => i < self.open_spec().len() && self.open_spec()[i as int] == id,
                None => !self.open_spec().contains(id),
            },
    {
        let n = self.open_ids.len();
        let mut i: usize = 0;
        while i < n
            invariant
                n == self.open_ids@.len(),
                i <= n,
                forall|j: int| 0 <= j < i ==> self.open_ids@[j] != id,
            decreases n - i,
        {
            if self.open_ids[i] == id {
                return Some(i);
            }
            i += 1;
        }
        None
    }

    /// Is `id` a currently open session?
    pub fn has_session(&self, id: u32) -> (r: bool)
        ensures
            r == self.open_spec().contains(id),
    {
        let n = self.open_ids.len();
        let mut i: usize = 0;
        while i < n
            invariant
                n == self.open_ids@.len(),
                i <= n,
                forall|j: int| 0 <= j < i ==> self.open_ids@[j] != id,
            decreases n - i,
        {
            if self.open_ids[i] == id {
                return true;
            }
            i += 1;
        }
        false
    }

    /// Admit a write to session `id`.
    ///
    /// `Ok` means the session is registered and the driver may forward the
    /// bytes to the session's input stream and flush it.
    pub fn write(&self, id: u32) -> (r: Result<(), PtyError>)
        ensures
            r is Ok <==> self.open_spec().contains(id),
            r is Err ==> r->Err_0 == PtyError::NotFound,
    {
        if self.has_session(id) {
            Ok(())
        } else {
            Err(PtyError::NotFound)
        }
    }

    /// Admit a resize of session `id` to `cols × rows`.
    ///
    /// `Ok` means the session is registered and the driver may propagate the
    /// size change to the pseudo-terminal.
    pub fn resize(&self, id: u32, cols: u16, rows: u16) -> (r: Result<(u16, u16), PtyError>)
        ensures
            r is Ok <==> self.open_spec().contains(id),
            r is Ok ==> r->Ok_0 == (cols, rows),
            r is Err ==> r->Err_0 == PtyError::NotFound,
    {
        if self.has_session(id) {
            Ok((cols, rows))
        } else {
            Err(PtyError::NotFound)
        }
    }

    /// Close session `id`.
    ///
    /// Returns whether the session was open; on `true` the driver must
    /// forcibly terminate the session's child and wait for it.  Closing an
    /// unknown or already-closed handle is a no-op, not an error, so a
    /// UI-driven double close is safe.
    pub fn close(&mut self, id: u32) -> (was_open: bool)
        requires
            old(self).wf(),
        ensures
            final(self).wf(),
            was_open == old(self).open_spec().contains(id),
            final(self).next_id_spec() == old(self).next_id_spec(),
            final(self).allocated_spec() == old(self).allocated_spec(),
            final(self).soul_path_spec() == old(self).soul_path_spec(),
            !final(self).open_spec().contains(id),
            forall|x: u32|
                #[trigger] final(self).open_spec().contains(x) <==> (old(
                    self,
                ).open_spec().contains(x) && x != id),
            final(self).open_spec().len() == old(self).open_spec().len() - (if old(
                self,
            ).open_spec().contains(id) {
                1int
            } else {
                0int
            }),
    {
        let ghost s0 = self.open_ids@;
        match self.index_of(id) {
            Some(i) => {
                self.open_ids.remove(i);
                proof {
                    let s1 = self.open_ids@;
                    assert(s0.contains(id)) by {
                        assert(s0[i as int] == id);
                    }
                    assert forall|x: u32| #[trigger] s1.contains(x) implies s0.contains(x) && x
                        != id by {
                        let k = choose|k: int| 0 <= k < s1.len() && s1[k] == x;
                        if k < i {
                            assert(s0[k] == x);
                        } else {
                            assert(s0[k + 1] == x);
                            assert(s0[i as int] < s0[k + 1]);
                        }
                    };
                    assert forall|x: u32| s0.contains(x) && x != id implies #[trigger] s1.contains(
                        x,
                    ) by {
                        let k = choose|k: int| 0 <= k < s0.len() && s0[k] == x;
                        if k < i {
                            assert(s1[k] == x);
                        } else {
                            assert(k != i);
                            assert(s1[k - 1] == x);
                        }
                    };
                    assert(!s1.contains(id));
                    assert forall|p: int|
                        0 <= p < s1.len() implies old(self).allocated_spec().contains(
                        #[trigger] s1[p],
                    ) by {
                        if p < i {
                            assert(s1[p] == s0[p]);
                        } else {
                            assert(s1[p] == s0[p + 1]);
                        }
                    };
                }
                true
            },
            None => false,
        }
    }

    /// Tear down every remaining session, for process-wide shutdown.
    ///
    /// Returns the handles that were open, in creation order; the driver must
    /// forcibly terminate each one's child and wait for it, so that no
    /// spawned process outlives the application.
    pub fn shutdown(&mut self) -> (ids: Vec<u32>)
        requires
            old(self).wf(),
        ensures
            final(self).wf(),
            ids@ == old(self).open_spec(),
            final(self).open_spec() == Seq::<u32>::empty(),
            final(self).next_id_spec() == old(self).next_id_spec(),
            final(self).allocated_spec() == old(self).allocated_spec(),
            final(self).soul_path_spec() == old(self).soul_path_spec(),
    {
        let ids = self.open_ids.split_off(0);
        proof {
            assert(ids@ =~= old(self).open_ids@);
            assert(self.open_ids@ =~= Seq::<u32>::empty());
            assert(self.allocated_spec() == old(self).allocated_spec());
            assert(self.next_id_spec() == old(self).next_id_spec());
            assert(self.open_spec().len() == 0);
        }
        ids
    }
}

/// The value, or `d` when there is none.
pub open spec fn or_default(v: Option<Seq<char>>, d: Seq<char>) -> Seq<char> {
    match v {
        Some(x) => x,
        None => d,
    }
}

/// The entry a spawned shell inherits for `key`: present with the host's
/// value exactly when the host process has it.
pub open spec fn inherited(host: Seq<(Seq<char>, Seq<char>)>, key: Seq<char>) -> Seq<
    (Seq<char>, Seq<char>),
> {
    match env_value(host, key) {
        Some(v) => seq![(key, v)],
        None => Seq::empty(),
    }
}

/// The environment handed to a spawned shell, given the host process
/// environment: the nesting-guard variable cleared, fixed
/// terminal-identification variables, the locale with a UTF-8 fallback, a
/// short allow-list inherited from the host — secret-bearing variables such
/// as API keys are not on it and therefore withheld — and the controlled
/// root location.
pub open spec fn curated_env_spec(
    host: Seq<(Seq<char>, Seq<char>)>,
    soul_path: Seq<char>,
    version: Seq<char>,
) -> Seq<(Seq<char>, Seq<char>)> {
    seq![
        ("CLAUDECODE"@, Seq::<char>::empty()),
        ("TERM"@, "xterm-256color"@),
        ("COLORTERM"@, "truecolor"@),
        ("TERM_PROGRAM"@, "SoulOS"@),
        ("TERM_PROGRAM_VERSION"@, version),
        ("LANG"@, or_default(env_value(host, "LANG"@), "en_US.UTF-8"@)),
        ("LC_CTYPE"@, or_default(env_value(host, "LC_CTYPE"@), "en_US.UTF-8"@)),
    ] + inherited(host, "HOME"@) + inherited(host, "USER"@) + inherited(host, "LOGNAME"@)
        + inherited(host, "PATH"@) + inherited(host, "SHELL"@) + inherited(host, "TMPDIR"@)
        + inherited(host, "XDG_RUNTIME_DIR"@) + inherited(host, "HOMEBREW_PREFIX"@) + inherited(
        host,
        "HOMEBREW_CELLAR"@,
    ) + inherited(host, "HOMEBREW_REPOSITORY"@) + inherited(host, "SSH_AUTH_SOCK"@) + seq![
        ("SOUL_PATH"@, soul_path),
        ("INSIDE_SOUL_OS"@, "1"@),
    ]
}

/// Append the entry a spawned shell inherits for `key`, if the host has one.
fn push_inherited(r: &mut Vec<(String, String)>, host: &Vec<(String, String)>, key: &str)
    ensures
        final(r).deep_view() == old(r).deep_view() + inherited(host.deep_view(), key@),
{
    let ghost r0 = r.deep_view();
    match env_lookup(host, key) {
        Some(v) => {
            r.push((String::from_str(key), v));
            proof {
                assert(r.deep_view() =~= r0 + inherited(host.deep_view(), key@));
            }
        },
        None => {
            proof {
                assert(r.deep_view() =~= r0 + inherited(host.deep_view(), key@));
            }
        },
    }
}

impl PtyManager {
    /// The environment for a shell spawned by this manager, computed from
    /// the host process environment and the application version.
    pub fn shell_env(&self, host: &Vec<(String, String)>, version: &str) -> (r: Vec<
        (String, String),
    >)
        ensures
            r.deep_view() == curated_env_spec(host.deep_view(), self.soul_path_spec(), version@),
    {
        let ghost h = host.deep_view();
        let mut r: Vec<(String, String)> = Vec::new();
        r.push((String::from_str("CLAUDECODE"), String::new()));
        r.push((String::from_str("TERM"), String::from_str("xterm-256color")));
        r.push((String::from_str("COLORTERM"), String::from_str("truecolor")));
        r.push((String::from_str("TERM_PROGRAM"), String::from_str("SoulOS")));
        r.push((String::from_str("TERM_PROGRAM_VERSION"), String::from_str(version)));
        let lang = match env_lookup(host, "LANG") {
            Some(v) => v,
            None => String::from_str("en_US.UTF-8"),
        };
        r.push((String::from_str("LANG"), lang));
        let lc_ctype = match env_lookup(host, "LC_CTYPE") {
            Some(v) => v,
            None => String::from_str("en_US.UTF-8"),
        };
        r.push((String::from_str("LC_CTYPE"), lc_ctype));
        let ghost fixed = r.deep_view();
        proof {
            assert(fixed =~= seq![
                ("CLAUDECODE"@, Seq::<char>::empty()),
                ("TERM"@, "xterm-256color"@),
                ("COLORTERM"@, "truecolor"@),
                ("TERM_PROGRAM"@, "SoulOS"@),
                ("TERM_PROGRAM_VERSION"@, version@),
                ("LANG"@, or_default(env_value(h, "LANG"@), "en_US.UTF-8"@)),
                ("LC_CTYPE"@, or_default(env_value(h, "LC_CTYPE"@), "en_US.UTF-8"@)),
            ]);
        }
        push_inherited(&mut r, host, "HOME");
        push_inherited(&mut r, host, "USER");
        push_inherited(&mut r, host, "LOGNAME");
        push_inherited(&mut r, host, "PATH");
        push_inherited(&mut r, host, "SHELL");
        push_inherited(&mut r, host, "TMPDIR");
        push_inherited(&mut r, host, "XDG_RUNTIME_DIR");
        push_inherited(&mut r, host, "HOMEBREW_PREFIX");
        push_inherited(&mut r, host, "HOMEBREW_CELLAR");
        push_inherited(&mut r, host, "HOMEBREW_REPOSITORY");
        push_inherited(&mut r, host, "SSH_AUTH_SOCK");
        let mut soul = String::new();
        soul.append(self.soul_path.as_str());
        r.push((String::from_str("SOUL_PATH"), soul));
        r.push((String::from_str("INSIDE_SOUL_OS"), String::from_str("1")));
        proof {
            assert(r.deep_view() =~= curated_env_spec(h, self.soul_path_spec(), version@));
        }
        r
    }
}

/// Law: within one registry lifetime, session handles are strictly
/// increasing positive integers — a handle is never reused, and every handle
/// returned later is larger than every handle returned earlier.
pub proof fn lemma_handles_strictly_increasing(m: PtyManager)
    requires
        m.wf(),
    ensures
        forall|i: int, j: int|
            0 <= i < j < m.allocated_spec().len() ==> #[trigger] m.allocated_spec()[i]
                < #[trigger] m.allocated_spec()[j],
        forall|i: int| 0 <= i < m.allocated_spec().len() ==> 1 <= #[trigger] m.allocated_spec()[i],
        forall|i: int, j: int|
            0 <= i < m.allocated_spec().len() && 0 <= j < m.allocated_spec().len() && i != j
                ==> #[trigger] m.allocated_spec()[i] != #[trigger] m.allocated_spec()[j],
{
}

} // verus!
