//! File-system activity tracking.
//!
//! The driver layer watches the controlled root directory and hands every
//! event's path, relative to that root, to `route_fs_event`; the functions
//! here decide which paths matter, which activity node a path lights up, how
//! an activity pulse is parsed, and how a node's activity level decays over
//! time.  Time is passed in as milliseconds of a monotonic clock.

use vstd::prelude::*;
use vstd::string::*;
use crate::text::{
    contains_seq, ends_with, str_eq, contains_str, ends_with_str, trimmed, trim_str, lower_seq,
    to_lower_ascii, first_ix, find_char, lines_spec, split_lines,
};
use crate::types::{SoulActivity, SoulPulse};

verus! {

/// A node stays fully lit this long after its last activity.
pub const BRIGHT_MS: u64 = 6000;

/// After the bright phase the level fades linearly over this long.
pub const AFTERGLOW_MS: u64 = 15000;

/// Total time from last activity until a node is dark again.
pub const TOTAL_DECAY_MS: u64 = BRIGHT_MS + AFTERGLOW_MS;

/// How long after the last pulse the system still counts as working.
pub const WORKING_TIMEOUT_MS: u64 = 20000;

/// The node a changed file lights up, if any: directory patterns first, then
/// well-known file names by suffix.
pub open spec fn resolve_node_spec(p: Seq<char>) -> Option<Seq<char>> {
    if contains_seq(p, "beziehungen/"@) || contains_seq(p, "relationships/"@) {
        Some("bonds"@)
    } else if contains_seq(p, "erinnerungen/"@) || contains_seq(p, "memories/"@) {
        Some("mem"@)
    } else if contains_seq(p, "heartbeat/"@) {
        Some("heartbeat"@)
    } else if contains_seq(p, "zustandslog/"@) || contains_seq(p, "statelog/"@) {
        Some("statelog"@)
    } else if contains_seq(p, "media/"@) {
        Some("mem"@)
    } else if ends_with(p, "SEED.md"@) || ends_with(p, "SOUL.md"@) {
        Some("seed"@)
    } else if ends_with(p, "KERN.md"@) || ends_with(p, "CORE.md"@) {
        Some("kern"@)
    } else if ends_with(p, "BEWUSSTSEIN.md"@) || ends_with(p, "CONSCIOUSNESS.md"@) {
        Some("bewusstsein"@)
    } else if ends_with(p, "SCHATTEN.md"@) || ends_with(p, "SHADOW.md"@) {
        Some("schatten"@)
    } else if ends_with(p, "TRAEUME.md"@) || ends_with(p, "DREAMS.md"@) {
        Some("traeume"@)
    } else if ends_with(p, "WACHSTUM.md"@) || ends_with(p, "GROWTH.md"@) {
        Some("wachstum"@)
    } else if ends_with(p, "GARTEN.md"@) || ends_with(p, "GARDEN.md"@) {
        Some("garten"@)
    } else if ends_with(p, "MANIFEST.md"@) {
        Some("manifest"@)
    } else if ends_with(p, "EVOLUTION.md"@) {
        Some("evolution"@)
    } else if ends_with(p, "INTERESSEN.md"@) || ends_with(p, "INTERESTS.md"@) {
        Some("interessen"@)
    } else if ends_with(p, "knowledge-graph.jsonl"@) {
        Some("graph"@)
    } else {
        None
    }
}

/// Maps a file path, relative to the controlled root, to the activity node
/// it lights up, as `resolve_node_spec` describes.
pub fn resolve_node(relative_path: &str) -> (r: Option<&'static str>)
    ensures
        match r {
            Some(n) => resolve_node_spec(relative_path@) == Some(n@),
            None => resolve_node_spec(relative_path@) is None,
        },
{
    let p = relative_path;
    if contains_str(p, "beziehungen/") || contains_str(p, "relationships/") {
        Some("bonds")
    } else if contains_str(p, "erinnerungen/") || contains_str(p, "memories/") {
        Some("mem")
    } else if contains_str(p, "heartbeat/") {
        Some("heartbeat")
    } else if contains_str(p, "zustandslog/") || contains_str(p, "statelog/") {
        Some("statelog")
    } else if contains_str(p, "media/") {
        Some("mem")
    } else if ends_with_str(p, "SEED.md") || ends_with_str(p, "SOUL.md") {
        Some("seed")
    } else if ends_with_str(p, "KERN.md") || ends_with_str(p, "CORE.md") {
        Some("kern")
    } else if ends_with_str(p, "BEWUSSTSEIN.md") || ends_with_str(p, "CONSCIOUSNESS.md") {
        Some("bewusstsein")
    } else if ends_with_str(p, "SCHATTEN.md") || ends_with_str(p, "SHADOW.md") {
        Some("schatten")
    } else if ends_with_str(p, "TRAEUME.md") || ends_with_str(p, "DREAMS.md") {
        Some("traeume")
    } else if ends_with_str(p, "WACHSTUM.md") || ends_with_str(p, "GROWTH.md") {
        Some("wachstum")
    } else if ends_with_str(p, "GARTEN.md") || ends_with_str(p, "GARDEN.md") {
        Some("garten")
    } else if ends_with_str(p, "MANIFEST.md") {
        Some("manifest")
    } else if ends_with_str(p, "EVOLUTION.md") {
        Some("evolution")
    } else if ends_with_str(p, "INTERESSEN.md") || ends_with_str(p, "INTERESTS.md") {
        Some("interessen")
    } else if ends_with_str(p, "knowledge-graph.jsonl") {
        Some("graph")
    } else {
        None
    }
}

/// The nodes an activity type lights up.
pub open spec fn activity_nodes_spec(a: Seq<char>) -> Option<Seq<Seq<char>>> {
    if a == "search"@ {
        Some(seq!["interessen"@, "mem"@, "graph"@])
    } else if a == "research"@ {
        Some(seq!["interessen"@, "mem"@])
    } else if a == "code"@ {
        Some(seq!["manifest"@, "evolution"@])
    } else if a == "think"@ {
        Some(seq!["kern"@, "bewusstsein"@])
    } else if a == "remember"@ {
        Some(seq!["mem"@, "graph"@])
    } else if a == "dream"@ {
        Some(seq!["traeume"@, "garten"@])
    } else if a == "relate"@ {
        Some(seq!["bonds"@])
    } else if a == "reflect"@ {
        Some(seq!["schatten"@, "bewusstsein"@])
    } else if a == "grow"@ {
        Some(seq!["wachstum"@, "evolution"@])
    } else if a == "world"@ {
        Some(seq!["interessen"@])
    } else if a == "wake"@ {
        Some(seq!["seed"@, "kern"@, "heartbeat"@])
    } else if a == "sleep"@ {
        Some(seq!["seed"@, "statelog"@, "mem"@])
    } else if a == "read"@ {
        Some(seq!["mem"@, "bewusstsein"@])
    } else if a == "write"@ {
        Some(seq!["manifest"@])
    } else if a == "analyze"@ {
        Some(seq!["kern"@, "schatten"@])
    } else if a == "plan"@ {
        Some(seq!["manifest"@, "kern"@])
    } else if a == "connect"@ {
        Some(seq!["bonds"@, "interessen"@])
    } else if a == "heartbeat"@ {
        Some(seq!["heartbeat"@, "bewusstsein"@])
    } else if a == "garden"@ {
        Some(seq!["garten"@, "traeume"@])
    } else if a == "shadow"@ {
        Some(seq!["schatten"@])
    } else if a == "log"@ {
        Some(seq!["statelog"@])
    } else if a == "reflection"@ {
        Some(seq!["bewusstsein"@, "garten"@, "schatten"@])
    } else if a == "correction"@ {
        Some(seq!["kern"@, "mem"@])
    } else if a == "rluf"@ {
        Some(seq!["bonds"@, "wachstum"@])
    } else {
        None
    }
}

/// Maps an activity type to the nodes it lights up, as
/// `activity_nodes_spec` describes.
pub fn activity_nodes(activity: &str) -> (r: Option<Vec<&'static str>>)
    ensures
        match r {
            Some(v) => activity_nodes_spec(activity@) == Some(v.deep_view()),
            None => activity_nodes_spec(activity@) is None,
        },
{
    let a = activity;
    let r: Option<Vec<&'static str>> = if str_eq(a, "search") {
        Some(vec!["interessen", "mem", "graph"])
    } else if str_eq(a, "research") {
        Some(vec!["interessen", "mem"])
    } else if str_eq(a, "code") {
        Some(vec!["manifest", "evolution"])
    } else if str_eq(a, "think") {
        Some(vec!["kern", "bewusstsein"])
    } else if str_eq(a, "remember") {
        Some(vec!["mem", "graph"])
    } else if str_eq(a, "dream") {
        Some(vec!["traeume", "garten"])
    } else if str_eq(a, "relate") {
        Some(vec!["bonds"])
    } else if str_eq(a, "reflect") {
        Some(vec!["schatten", "bewusstsein"])
    } else if str_eq(a, "grow") {
        Some(vec!["wachstum", "evolution"])
    } else if str_eq(a, "world") {
        Some(vec!["interessen"])
    } else if str_eq(a, "wake") {
        Some(vec!["seed", "kern", "heartbeat"])
    } else if str_eq(a, "sleep") {
        Some(vec!["seed", "statelog", "mem"])
    } else if str_eq(a, "read") {
        Some(vec!["mem", "bewusstsein"])
    } else if str_eq(a, "write") {
        Some(vec!["manifest"])
    } else if str_eq(a, "analyze") {
        Some(vec!["kern", "schatten"])
    } else if str_eq(a, "plan") {
        Some(vec!["manifest", "kern"])
    } else if str_eq(a, "connect") {
        Some(vec!["bonds", "interessen"])
    } else if str_eq(a, "heartbeat") {
        Some(vec!["heartbeat", "bewusstsein"])
    } else if str_eq(a, "garden") {
        Some(vec!["garten", "traeume"])
    } else if str_eq(a, "shadow") {
        Some(vec!["schatten"])
    } else if str_eq(a, "log") {
        Some(vec!["statelog"])
    } else if str_eq(a, "reflection") {
        Some(vec!["bewusstsein", "garten", "schatten"])
    } else if str_eq(a, "correction") {
        Some(vec!["kern", "mem"])
    } else if str_eq(a, "rluf") {
        Some(vec!["bonds", "wachstum"])
    } else {
        None
    };
    proof {
        match &r {
            Some(v) => {
                assert(activity_nodes_spec(a@) == Some(v.deep_view())) by {
                    assert(activity_nodes_spec(a@) matches Some(ns) ==> ns =~= v.deep_view());
                };
            },
            None => {},
        }
    }
    r
}

/// Where a file-system event, by its path relative to the controlled root,
/// is routed.
pub enum FsRoute {
    /// Build output, dependency or version-control noise: ignored.
    Skip,
    /// The activity-pulse file.
    Pulse,
    /// The mood file.
    Mood,
    /// The event-bus log.
    EventsLog,
    /// An ordinary file that lights up an activity node.
    Activity(&'static str),
}

/// Spec-level routing decision.
pub enum FsRouteSpec {
    Skip,
    Pulse,
    Mood,
    EventsLog,
    Activity(Seq<char>),
}

pub open spec fn route_view(r: FsRoute) -> FsRouteSpec {
    match r {
        FsRoute::Skip => FsRouteSpec::Skip,
        FsRoute::Pulse => FsRouteSpec::Pulse,
        FsRoute::Mood => FsRouteSpec::Mood,
        FsRoute::EventsLog => FsRouteSpec::EventsLog,
        FsRoute::Activity(n) => FsRouteSpec::Activity(n@),
    }
}

pub open spec fn route_spec(rel: Seq<char>) -> FsRouteSpec {
    if contains_seq(rel, "node_modules"@) || contains_seq(rel, "soul-monitor"@) || contains_seq(
        rel,
        "seelen-protokoll"@,
    ) || contains_seq(rel, "target/"@) || contains_seq(rel, ".git/"@) {
        FsRouteSpec::Skip
    } else if rel == ".soul-pulse"@ {
        FsRouteSpec::Pulse
    } else if rel == ".soul-mood"@ {
        FsRouteSpec::Mood
    } else if rel == ".soul-events/current.jsonl"@ {
        FsRouteSpec::EventsLog
    } else {
        match resolve_node_spec(rel) {
            Some(n) => FsRouteSpec::Activity(n),
            None => FsRouteSpec::Skip,
        }
    }
}

/// Route one file-system event by its path relative to the controlled root,
/// as `route_spec` describes.
pub fn route_fs_event(rel: &str) -> (r: FsRoute)
    ensures
        route_view(r) == route_spec(rel@),
{
    if contains_str(rel, "node_modules") || contains_str(rel, "soul-monitor") || contains_str(
        rel,
        "seelen-protokoll",
    ) || contains_str(rel, "target/") || contains_str(rel, ".git/") {
        FsRoute::Skip
    } else if str_eq(rel, ".soul-pulse") {
        FsRoute::Pulse
    } else if str_eq(rel, ".soul-mood") {
        FsRoute::Mood
    } else if str_eq(rel, ".soul-events/current.jsonl") {
        FsRoute::EventsLog
    } else {
        match resolve_node(rel) {
            Some(n) => FsRoute::Activity(n),
            None => FsRoute::Skip,
        }
    }
}

/// Activity level of a node, in thousandths, given the time since its last
/// activity: full for the bright phase, then fading linearly to zero over
/// the afterglow.
pub open spec fn level_permille_spec(elapsed_ms: u64) -> u32 {
    if elapsed_ms < BRIGHT_MS {
        1000
    } else if elapsed_ms < TOTAL_DECAY_MS {
        (((500 * ((TOTAL_DECAY_MS - elapsed_ms) as int)) / (AFTERGLOW_MS as int)) as u32)
    } else {
        0
    }
}

/// Executable activity level, as `level_permille_spec` describes.
pub fn level_permille(elapsed_ms: u64) -> (r: u32)
    ensures
        r == level_permille_spec(elapsed_ms),
{
    if elapsed_ms < BRIGHT_MS {
        1000
    } else if elapsed_ms < TOTAL_DECAY_MS {
        let v = (500 * (TOTAL_DECAY_MS - elapsed_ms)) / AFTERGLOW_MS;
        proof {
            assert(500 * ((TOTAL_DECAY_MS - elapsed_ms) as int) <= 500 * (AFTERGLOW_MS as int))
                by (nonlinear_arith)
                requires
                    (TOTAL_DECAY_MS - elapsed_ms) as int <= AFTERGLOW_MS as int,
            ;
        }
        v as u32
    } else {
        0
    }
}

/// Time of the first entry named `node`, if any.
pub open spec fn lookup_entry(es: Seq<(Seq<char>, u64)>, node: Seq<char>) -> Option<u64>
    decreases es.len(),
{
    if es.len() == 0 {
        None
    } else if es[0].0 == node {
        Some(es[0].1)
    } else {
        lookup_entry(es.skip(1), node)
    }
}

pub open spec fn unique_keys(es: Seq<(Seq<char>, u64)>) -> bool {
    forall|i: int, j: int|
        0 <= i < j < es.len() ==> (#[trigger] es[i]).0 != (#[trigger] es[j]).0
}

proof fn lemma_lookup_absent(es: Seq<(Seq<char>, u64)>, k: Seq<char>)
    requires
        forall|i: int| 0 <= i < es.len() ==> (#[trigger] es[i]).0 != k,
    ensures
        lookup_entry(es, k) is None,
    decreases es.len(),
{
    if es.len() > 0 {
        assert forall|i: int| 0 <= i < es.skip(1).len() implies (#[trigger] es.skip(1)[i]).0
            != k by {
            assert(es.skip(1)[i] == es[i + 1]);
        };
        lemma_lookup_absent(es.skip(1), k);
    }
}

proof fn lemma_lookup_push(es: Seq<(Seq<char>, u64)>, e: (Seq<char>, u64), k: Seq<char>)
    ensures
        lookup_entry(es.push(e), k) == (if lookup_entry(es, k) is Some {
            lookup_entry(es, k)
        } else if e.0 == k {
            Some(e.1)
        } else {
            None::<u64>
        }),
    decreases es.len(),
{
    if es.len() == 0 {
        assert(es.push(e)[0] == e);
        assert(es.push(e).skip(1) =~= Seq::<(Seq<char>, u64)>::empty());
        assert(lookup_entry(es.push(e).skip(1), k) is None);
        assert(lookup_entry(es, k) is None);
    } else {
        assert(es.push(e)[0] == es[0]);
        assert(es.push(e).skip(1) =~= es.skip(1).push(e));
        lemma_lookup_push(es.skip(1), e, k);
    }
}

proof fn lemma_lookup_remove_other(es: Seq<(Seq<char>, u64)>, i: int, k: Seq<char>)
    requires
        0 <= i < es.len(),
        es[i].0 != k,
    ensures
        lookup_entry(es.remove(i), k) == lookup_entry(es, k),
    decreases es.len(),
{
    if i == 0 {
        assert(es.remove(0) =~= es.skip(1));
    } else {
        assert(es.remove(i)[0] == es[0]);
        if es[0].0 != k {
            assert(es.remove(i).skip(1) =~= es.skip(1).remove(i - 1));
            assert(es.skip(1)[i - 1] == es[i as int]);
            lemma_lookup_remove_other(es.skip(1), i - 1, k);
        }
    }
}

proof fn lemma_lookup_remove_self(es: Seq<(Seq<char>, u64)>, i: int)
    requires
        0 <= i < es.len(),
        unique_keys(es),
    ensures
        lookup_entry(es.remove(i), es[i].0) is None,
{
    let k = es[i].0;
    assert forall|j: int| 0 <= j < es.remove(i).len() implies (#[trigger] es.remove(i)[j]).0
        != k by {
        if j < i {
            assert(es.remove(i)[j] == es[j]);
        } else {
            assert(es.remove(i)[j] == es[j + 1]);
        }
    };
    lemma_lookup_absent(es.remove(i), k);
}

/// Registry of recent node activity and of the event-log size, fed by the
/// file-system watcher.  The mood snapshot shown beside it carries
/// floating-point values and is held by the driver layer.
pub struct WatcherState {
    active: Vec<(String, u64)>,
    last_pulse_ms: Option<u64>,
    last_jsonl_size: u64,
}

impl WatcherState {
    /// The recorded (node, last-activity time) entries.
    pub closed spec fn entries(self) -> Seq<(Seq<char>, u64)> {
        self.active.deep_view()
    }

    /// When any node was last activated.
    pub closed spec fn last_pulse_spec(self) -> Option<u64> {
        self.last_pulse_ms
    }

    /// The last observed size of the event-bus log.
    pub closed spec fn jsonl_size_spec(self) -> u64 {
        self.last_jsonl_size
    }

    /// Each node has at most one entry.
    pub open spec fn wf(self) -> bool {
        unique_keys(self.entries())
    }

    /// Every recorded time is at or before `now_ms`; callers pass one
    /// monotonic clock.
    pub open spec fn times_le(self, now_ms: u64) -> bool {
        &&& forall|i: int| 0 <= i < self.entries().len() ==> (#[trigger] self.entries()[i]).1
            <= now_ms
        &&& match self.last_pulse_spec() {
            Some(t) => t <= now_ms,
            None => true,
        }
    }

    pub fn new() -> (r: WatcherState)
        ensures
            r.wf(),
            r.entries() == Seq::<(Seq<char>, u64)>::empty(),
            r.last_pulse_spec() is None,
            r.jsonl_size_spec() == 0,
    {
        let r = WatcherState { active: Vec::new(), last_pulse_ms: None, last_jsonl_size: 0 };
        proof {
            assert(r.entries() =~= Seq::<(Seq<char>, u64)>::empty());
        }
        r
    }

    fn entry_index(&self, node: &str) -> (r: Option<usize>)
        ensures
            match r {
                Some(i) => i < self.entries().len() && self.entries()[i as int].0 == node@,
                None => forall|j: int|
                    0 <= j < self.entries().len() ==> (#[trigger] self.entries()[j]).0 != node@,
            },
    {
        let ghost es = self.entries();
        let n = self.active.len();
        let mut i: usize = 0;
        while i < n
            invariant
                es == self.entries(),
                n == self.active@.len(),
                es.len() == n,
                i <= n,
                forall|j: int| 0 <= j < i ==> (#[trigger] es[j]).0 != node@,
            decreases n - i,
        {
            if str_eq(&self.active[i].0, node) {
                return Some(i);
            }
            i += 1;
        }
        None
    }

    /// Record activity on `node` at `now_ms`: the node's entry is set to
    /// `now_ms`, every other node keeps its time, and the last-pulse time is
    /// refreshed.
    pub fn activate_node(&mut self, node: &str, now_ms: u64)
        requires
            old(self).wf(),
        ensures
            final(self).wf(),
            lookup_entry(final(self).entries(), node@) == Some(now_ms),
            forall|k: Seq<char>|
                k != node@ ==> #[trigger] lookup_entry(final(self).entries(), k) == lookup_entry(
                    old(self).entries(),
                    k,
                ),
            final(self).last_pulse_spec() == Some(now_ms),
            final(self).jsonl_size_spec() == old(self).jsonl_size_spec(),
    {
        let ghost es0 = self.entries();
        let ghost mut removed_at: Option<int> = None;
        match self.entry_index(node) {
            Some(i) => {
                self.active.remove(i);
                proof {
                    removed_at = Some(i as int);
                    assert(self.entries() =~= es0.remove(i as int));
                    assert forall|p: int, q: int|
                        0 <= p < q < self.entries().len() implies (#[trigger] self.entries()[p]).0
                        != (#[trigger] self.entries()[q]).0 by {
                        let es1 = es0.remove(i as int);
                        let p0: int = if p < i {
                            p
                        } else {
                            p + 1
                        };
                        let q0: int = if q < i {
                            q
                        } else {
                            q + 1
                        };
                        assert(es1[p] == es0[p0]);
                        assert(es1[q] == es0[q0]);
                    };
                    assert forall|j: int|
                        0 <= j < self.entries().len() implies (#[trigger] self.entries()[j]).0
                        != node@ by {
                        let es1 = es0.remove(i as int);
                        if j < i {
                            assert(es1[j] == es0[j]);
                        } else {
                            assert(es1[j] == es0[j + 1]);
                        }
                    };
                }
            },
            None => {},
        }
        let ghost es1 = self.entries();
        proof {
            assert(forall|j: int| 0 <= j < es1.len() ==> (#[trigger] es1[j]).0 != node@);
            lemma_lookup_absent(es1, node@);
        }
        let mut owned = String::new();
        owned.append(node);
        self.active.push((owned, now_ms));
        self.last_pulse_ms = Some(now_ms);
        proof {
            let es2 = self.entries();
            assert(es2 =~= es1.push((node@, now_ms)));
            lemma_lookup_push(es1, (node@, now_ms), node@);
            assert(lookup_entry(es2, node@) == Some(now_ms));
            assert forall|k: Seq<char>| k != node@ implies #[trigger] lookup_entry(es2, k)
                == lookup_entry(es0, k) by {
                lemma_lookup_push(es1, (node@, now_ms), k);
                match removed_at {
                    Some(i) => {
                        lemma_lookup_remove_other(es0, i, k);
                        assert(es1 == es0.remove(i));
                    },
                    None => {
                        assert(es1 == es0);
                    },
                }
            };
            assert forall|p: int, q: int| 0 <= p < q < es2.len() implies (#[trigger] es2[p]).0
                != (#[trigger] es2[q]).0 by {
                if q < es1.len() {
                    assert(es2[p] == es1[p]);
                    assert(es2[q] == es1[q]);
                } else {
                    assert(es2[p] == es1[p]);
                    assert(es2[q].0 == node@);
                }
            };
        }
    }

    /// The activity level of `node` at `now_ms`, in thousandths.
    pub fn get_activity(&self, node: &str, now_ms: u64) -> (r: u32)
        requires
            self.times_le(now_ms),
            self.wf(),
        ensures
            r == (match lookup_entry(self.entries(), node@) {
                Some(t) => level_permille_spec((now_ms - t) as u64),
                None => 0u32,
            }),
    {
        let ghost es = self.entries();
        match self.entry_index(node) {
            Some(i) => {
                proof {
                    lemma_lookup_at(es, i as int);
                }
                let t = self.active[i].1;
                level_permille(now_ms - t)
            },
            None => {
                proof {
                    lemma_lookup_absent(es, node@);
                }
                0
            },
        }
    }

    /// Did any pulse arrive within the working timeout before `now_ms`?
    pub fn is_working(&self, now_ms: u64) -> (r: bool)
        requires
            self.times_le(now_ms),
        ensures
            r == (match self.last_pulse_spec() {
                Some(t) => now_ms - t < WORKING_TIMEOUT_MS,
                None => false,
            }),
    {
        match self.last_pulse_ms {
            Some(t) => now_ms - t < WORKING_TIMEOUT_MS,
            None => false,
        }
    }

    /// The nodes still decaying at `now_ms`, each with its level in
    /// thousandths, as `active_levels_spec` describes.
    pub fn get_active_nodes_map(&self, now_ms: u64) -> (r: Vec<(String, u32)>)
        requires
            self.times_le(now_ms),
        ensures
            r.deep_view() == active_levels_spec(self.entries(), now_ms),
    {
        let ghost es = self.entries();
        let n = self.active.len();
        let mut r: Vec<(String, u32)> = Vec::new();
        let mut i: usize = 0;
        proof {
            assert(es.skip(0) =~= es);
            assert(r.deep_view() =~= Seq::<(Seq<char>, u32)>::empty());
            assert(r.deep_view() + active_levels_spec(es, now_ms) =~= active_levels_spec(
                es,
                now_ms,
            ));
        }
        while i < n
            invariant
                es == self.entries(),
                n == self.active@.len(),
                es.len() == n,
                i <= n,
                self.times_le(now_ms),
                active_levels_spec(es, now_ms) == r.deep_view() + active_levels_spec(
                    es.skip(i as int),
                    now_ms,
                ),
            decreases n - i,
        {
            let ghost t = es.skip(i as int);
            let ghost r0 = r.deep_view();
            proof {
                assert(t[0] == es[i as int]);
                assert(t.skip(1) =~= es.skip(i + 1));
            }
            let last = self.active[i].1;
            let elapsed = now_ms - last;
            if elapsed < TOTAL_DECAY_MS {
                let name = self.active[i].0.clone();
                let lvl = level_permille(elapsed);
                r.push((name, lvl));
                proof {
                    assert(r.deep_view() =~= r0 + seq![(es[i as int].0, level_permille_spec(
                        (now_ms - es[i as int].1) as u64,
                    ))]);
                    assert(r0 + seq![(es[i as int].0, level_permille_spec(
                        (now_ms - es[i as int].1) as u64,
                    ))] + active_levels_spec(es.skip(i + 1), now_ms) =~= r0 + (seq![(
                        es[i as int].0,
                        level_permille_spec((now_ms - es[i as int].1) as u64),
                    )] + active_levels_spec(es.skip(i + 1), now_ms)));
                }
            }
            i += 1;
        }
        proof {
            assert(es.skip(n as int).len() == 0);
            assert(active_levels_spec(es.skip(n as int), now_ms) =~= Seq::<
                (Seq<char>, u32),
            >::empty());
            assert(r.deep_view() + active_levels_spec(es.skip(n as int), now_ms) =~= r.deep_view());
        }
        r
    }

    /// Gate for the event-bus log: record its current size and report
    /// whether it grew since the last look.
    pub fn note_events_size(&mut self, size: u64) -> (grew: bool)
        ensures
            grew == (size > old(self).jsonl_size_spec()),
            final(self).jsonl_size_spec() == size,
            final(self).entries() == old(self).entries(),
            final(self).last_pulse_spec() == old(self).last_pulse_spec(),
    {
        let grew = size > self.last_jsonl_size;
        self.last_jsonl_size = size;
        grew
    }
}

/// The entries still decaying at `now_ms`, each mapped to its level in
/// thousandths.
pub open spec fn active_levels_spec(es: Seq<(Seq<char>, u64)>, now_ms: u64) -> Seq<
    (Seq<char>, u32),
>
    decreases es.len(),
{
    if es.len() == 0 {
        Seq::empty()
    } else {
        let rest = active_levels_spec(es.skip(1), now_ms);
        if now_ms - es[0].1 < TOTAL_DECAY_MS {
            seq![(es[0].0, level_permille_spec((now_ms - es[0].1) as u64))] + rest
        } else {
            rest
        }
    }
}

/// The activity type of a pulse file's text `t` (already trimmed): the part
/// before the first colon, trimmed and folded to lower case, or the whole
/// text folded if there is no colon.
pub open spec fn pulse_type_spec(t: Seq<char>) -> Seq<char> {
    let i = first_ix(t, ':');
    if i < t.len() {
        lower_seq(trimmed(t.take(i)))
    } else {
        lower_seq(t)
    }
}

/// The label of a pulse: the trimmed part after the first colon, falling
/// back to the trimmed part before it when the description is empty, or the
/// whole text when there is no colon.
pub open spec fn pulse_label_spec(t: Seq<char>) -> Seq<char> {
    let i = first_ix(t, ':');
    if i < t.len() {
        let desc = trimmed(t.skip(i + 1));
        if desc.len() == 0 {
            trimmed(t.take(i))
        } else {
            desc
        }
    } else {
        t
    }
}

/// Decide what a write to the activity-pulse file publishes: `None` when the
/// file is blank or names no known activity type; otherwise the pulse event
/// and one activity event per node the type lights up, whose file label
/// carries the pulse's label.
pub fn pulse_decision(raw: &str, now_ms: u64) -> (r: Option<(SoulPulse, Vec<SoulActivity>)>)
    ensures
        ({
            let t = trimmed(raw@);
            match r {
                None => t.len() == 0 || activity_nodes_spec(pulse_type_spec(t)) is None,
                Some((p, acts)) => {
                    &&& t.len() > 0
                    &&& activity_nodes_spec(pulse_type_spec(t)) is Some
                    &&& p.activity_type@ == pulse_type_spec(t)
                    &&& p.label@ == pulse_label_spec(t)
                    &&& p.timestamp == now_ms
                    &&& acts@.len() == activity_nodes_spec(pulse_type_spec(t))->Some_0.len()
                    &&& forall|j: int|
                        0 <= j < acts@.len() ==> (#[trigger] acts@[j]).node@ == activity_nodes_spec(
                            pulse_type_spec(t),
                        )->Some_0[j] && acts@[j].file@ == ".soul-pulse ["@ + pulse_label_spec(t)
                            + "]"@ && acts@[j].event_type@ == "pulse"@
                },
            }
        }),
{
    let t = trim_str(raw);
    if t.is_empty() {
        return None;
    }
    let tlen = t.unicode_len();
    let (typ, label): (String, String) = match find_char(t, ':') {
        Some(i) => {
            proof {
                crate::text::lemma_first_ix_is(t@, ':', i as int);
            }
            let before = t.substring_char(0, i);
            let before_trimmed = trim_str(before);
            let desc = trim_str(t.substring_char(i + 1, tlen));
            let typ = to_lower_ascii(before_trimmed);
            let label = if desc.is_empty() {
                String::from_str(before_trimmed)
            } else {
                String::from_str(desc)
            };
            proof {
                assert(t@.take(i as int) =~= before@);
                assert(t@.skip(i + 1) =~= t@.subrange(i + 1, tlen as int));
            }
            (typ, label)
        },
        None => {
            proof {
                crate::text::lemma_first_ix_is(t@, ':', t@.len() as int);
            }
            (to_lower_ascii(t), String::from_str(t))
        },
    };
    let nodes = match activity_nodes(typ.as_str()) {
        Some(n) => n,
        None => {
            return None;
        },
    };
    let mut file = String::from_str(".soul-pulse [");
    file.append(label.as_str());
    file.append("]");
    let mut acts: Vec<SoulActivity> = Vec::new();
    let n = nodes.len();
    let mut j: usize = 0;
    while j < n
        invariant
            n == nodes@.len(),
            j <= n,
            acts@.len() == j,
            file@ == ".soul-pulse ["@ + label@ + "]"@,
            forall|k: int|
                0 <= k < j ==> (#[trigger] acts@[k]).node@ == nodes.deep_view()[k]
                    && acts@[k].file@ == file@ && acts@[k].event_type@ == "pulse"@,
        decreases n - j,
    {
        let act = SoulActivity {
            node: String::from_str(nodes[j]),
            file: file.clone(),
            event_type: String::from_str("pulse"),
        };
        acts.push(act);
        j += 1;
    }
    let pulse = SoulPulse { activity_type: typ, label, timestamp: now_ms };
    Some((pulse, acts))
}

#[verifier::external_type_specification]
#[verifier::external_body]
pub struct ExJsonValue(serde_json::Value);

/// What `serde_json::from_str::<serde_json::Value>` returns on a given
/// text: `None` exactly when the text is not one valid JSON document.
pub uninterp spec fn json_of(s: Seq<char>) -> Option<serde_json::Value>;

/// Relies on `serde_json::from_str::<serde_json::Value>`: whether the text
/// parses, and the document it parses to, depend on the characters alone.
#[verifier::external_body]
fn parse_json_value(s: &str) -> (r: Option<serde_json::Value>)
    ensures
        r == json_of(s@),
{
    serde_json::from_str::<serde_json::Value>(s).ok()
}

/// The non-empty lines among `ls`.
pub open spec fn nonempty_lines(ls: Seq<Seq<char>>) -> Seq<Seq<char>> {
    ls.filter(|l: Seq<char>| l.len() != 0)
}

/// The last three elements of `ls`, or all of them if there are fewer.
pub open spec fn last3(ls: Seq<Seq<char>>) -> Seq<Seq<char>> {
    if ls.len() > 3 {
        ls.skip(ls.len() - 3)
    } else {
        ls
    }
}

/// The JSON documents among `ls`, in order; lines that do not parse are
/// dropped.
pub open spec fn parsed_events(ls: Seq<Seq<char>>) -> Seq<serde_json::Value>
    decreases ls.len(),
{
    if ls.len() == 0 {
        Seq::empty()
    } else {
        let rest = parsed_events(ls.skip(1));
        match json_of(ls[0]) {
            Some(v) => seq![v] + rest,
            None => rest,
        }
    }
}

/// The bus events a grown event-log publishes: the JSON documents among the
/// last three non-empty lines of the log.
pub fn events_to_emit(content: &str) -> (r: Vec<serde_json::Value>)
    ensures
        r@ == parsed_events(last3(nonempty_lines(lines_spec(content@)))),
{
    let lines = split_lines(content);
    let ghost ldv = lines.deep_view();
    let mut kept: Vec<String> = Vec::new();
    let n = lines.len();
    let mut j: usize = 0;
    proof {
        reveal(Seq::filter);
        assert(ldv.take(0) =~= Seq::<Seq<char>>::empty());
        assert(kept.deep_view() =~= nonempty_lines(ldv.take(0)));
    }
    while j < n
        invariant
            ldv == lines.deep_view(),
            n == lines@.len(),
            ldv.len() == n,
            j <= n,
            kept.deep_view() == nonempty_lines(ldv.take(j as int)),
        decreases n - j,
    {
        let ghost k0 = kept.deep_view();
        if !lines[j].as_str().is_empty() {
            kept.push(lines[j].clone());
        }
        proof {
            reveal(Seq::filter);
            assert(ldv.take(j + 1).drop_last() =~= ldv.take(j as int));
            assert(ldv.take(j + 1).last() == ldv[j as int]);
            if ldv[j as int].len() != 0 {
                assert(kept.deep_view() =~= k0.push(ldv[j as int]));
            }
            assert(kept.deep_view() =~= nonempty_lines(ldv.take(j + 1)));
        }
        j += 1;
    }
    proof {
        assert(ldv.take(n as int) =~= ldv);
    }
    let start: usize = if kept.len() > 3 {
        kept.len() - 3
    } else {
        0
    };
    let ghost sel = last3(nonempty_lines(ldv));
    proof {
        if kept.deep_view().len() > 3 {
            assert(sel =~= kept.deep_view().skip(start as int));
        } else {
            assert(kept.deep_view().skip(0) =~= kept.deep_view());
        }
    }
    let mut out: Vec<serde_json::Value> = Vec::new();
    let mut k: usize = start;
    proof {
        assert(out@ =~= Seq::<serde_json::Value>::empty());
        assert(out@ + parsed_events(kept.deep_view().skip(start as int)) =~= parsed_events(
            kept.deep_view().skip(start as int),
        ));
    }
    while k < kept.len()
        invariant
            sel == last3(nonempty_lines(ldv)),
            sel == kept.deep_view().skip(start as int),
            start <= k <= kept@.len(),
            kept.deep_view().len() == kept@.len(),
            parsed_events(sel) == out@ + parsed_events(kept.deep_view().skip(k as int)),
        decreases kept@.len() - k,
    {
        let ghost t = kept.deep_view().skip(k as int);
        let ghost o0 = out@;
        proof {
            assert(t[0] == kept.deep_view()[k as int]);
            assert(t.skip(1) =~= kept.deep_view().skip(k + 1));
        }
        match parse_json_value(kept[k].as_str()) {
            Some(v) => {
                let ghost gv = v;
                proof {
                    assert(json_of(t[0]) == Some(gv));
                }
                out.push(v);
                proof {
                    assert(out@ =~= o0.push(gv));
                    assert(parsed_events(t) == seq![gv] + parsed_events(t.skip(1)));
                    assert(o0 + (seq![gv] + parsed_events(kept.deep_view().skip(k + 1))) =~= out@
                        + parsed_events(kept.deep_view().skip(k + 1)));
                }
            },
            None => {},
        }
        k += 1;
    }
    proof {
        assert(kept.deep_view().skip(kept@.len() as int).len() == 0);
        assert(parsed_events(kept.deep_view().skip(kept@.len() as int)) =~= Seq::<
            serde_json::Value,
        >::empty());
        assert(out@ + parsed_events(kept.deep_view().skip(kept@.len() as int)) =~= out@);
    }
    out
}

proof fn lemma_lookup_at(es: Seq<(Seq<char>, u64)>, i: int)
    requires
        0 <= i < es.len(),
        unique_keys(es),
    ensures
        lookup_entry(es, es[i].0) == Some(es[i].1),
    decreases i,
{
    if i == 0 {
    } else {
        assert(es[0].0 != es[i].0);
        assert(es.skip(1)[i - 1] == es[i]);
        assert forall|p: int, q: int|
            0 <= p < q < es.skip(1).len() implies (#[trigger] es.skip(1)[p]).0
            != (#[trigger] es.skip(1)[q]).0 by {
            assert(es.skip(1)[p] == es[p + 1]);
            assert(es.skip(1)[q] == es[q + 1]);
        };
        lemma_lookup_at(es.skip(1), i - 1);
    }
}

} // verus!
