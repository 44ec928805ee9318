//! Shared data types published to the UI layer.

use vstd::prelude::*;

verus! {

/// Summary parsed from the seed file's header.
#[derive(Debug, Clone, PartialEq)]
pub struct SoulStatus {
    pub name: String,
    pub born: String,
    pub sessions: u32,
    pub model: String,
    pub state: String,
    pub mood: String,
    pub seed_size: u64,
}

/// One activity pulse written by the engine.
#[derive(Debug, Clone, PartialEq)]
pub struct SoulPulse {
    pub activity_type: String,
    pub label: String,
    pub timestamp: u64,
}

/// One node lighting up in the activity view.
#[derive(Debug, Clone, PartialEq)]
pub struct SoulActivity {
    pub node: String,
    pub file: String,
    pub event_type: String,
}

/// One commit of the state history.
#[derive(Debug, Clone, PartialEq)]
pub struct GitCommit {
    pub hash: String,
    pub date: String,
    pub message: String,
    pub files_changed: u32,
}

} // verus!
