use soul_core::watcher::{
    activity_nodes, events_to_emit, level_permille, pulse_decision, resolve_node, route_fs_event,
    FsRoute, WatcherState, BRIGHT_MS, TOTAL_DECAY_MS, WORKING_TIMEOUT_MS,
};

#[test]
fn resolve_node_directories_and_suffixes() {
    assert_eq!(resolve_node("seele/beziehungen/anna.md"), Some("bonds"));
    assert_eq!(resolve_node("memories/core/x.md"), Some("mem"));
    assert_eq!(resolve_node("heartbeat/2024.md"), Some("heartbeat"));
    assert_eq!(resolve_node("statelog/today.md"), Some("statelog"));
    assert_eq!(resolve_node("media/img.png"), Some("mem"));
    assert_eq!(resolve_node("SEED.md"), Some("seed"));
    assert_eq!(resolve_node("deep/dir/SHADOW.md"), Some("schatten"));
    assert_eq!(resolve_node("knowledge-graph.jsonl"), Some("graph"));
    assert_eq!(resolve_node("INTERESTS.md"), Some("interessen"));
    assert_eq!(resolve_node("unrelated.txt"), None);
    // directory patterns win over suffixes
    assert_eq!(resolve_node("memories/GARDEN.md"), Some("mem"));
}

#[test]
fn activity_nodes_map() {
    assert_eq!(activity_nodes("search"), Some(vec!["interessen", "mem", "graph"]));
    assert_eq!(activity_nodes("wake"), Some(vec!["seed", "kern", "heartbeat"]));
    assert_eq!(activity_nodes("rluf"), Some(vec!["bonds", "wachstum"]));
    assert_eq!(activity_nodes("unknown-kind"), None);
    // the lookup is exact: case matters before folding
    assert_eq!(activity_nodes("Search"), None);
}

#[test]
fn fs_events_are_routed() {
    assert!(matches!(route_fs_event("node_modules/x.js"), FsRoute::Skip));
    assert!(matches!(route_fs_event("target/debug/x"), FsRoute::Skip));
    assert!(matches!(route_fs_event(".git/HEAD"), FsRoute::Skip));
    assert!(matches!(route_fs_event(".soul-pulse"), FsRoute::Pulse));
    assert!(matches!(route_fs_event(".soul-mood"), FsRoute::Mood));
    assert!(matches!(route_fs_event(".soul-events/current.jsonl"), FsRoute::EventsLog));
    assert!(matches!(route_fs_event("KERN.md"), FsRoute::Activity("kern")));
    assert!(matches!(route_fs_event("scratch.txt"), FsRoute::Skip));
    // skip patterns win even for otherwise meaningful files
    assert!(matches!(route_fs_event("seelen-protokoll/SEED.md"), FsRoute::Skip));
}

#[test]
fn activity_decays_in_two_phases() {
    assert_eq!(level_permille(0), 1000);
    assert_eq!(level_permille(BRIGHT_MS - 1), 1000);
    // at the start of the afterglow the level drops to half
    assert_eq!(level_permille(BRIGHT_MS), 500);
    // halfway through the afterglow: a quarter
    assert_eq!(level_permille(BRIGHT_MS + 7500), 250);
    assert_eq!(level_permille(TOTAL_DECAY_MS), 0);
    assert_eq!(level_permille(TOTAL_DECAY_MS + 12345), 0);
}

#[test]
fn watcher_state_tracks_nodes_and_working() {
    let mut st = WatcherState::new();
    assert!(!st.is_working(50_000));
    assert_eq!(st.get_activity("kern", 50_000), 0);

    st.activate_node("kern", 50_000);
    st.activate_node("mem", 52_000);
    assert_eq!(st.get_activity("kern", 50_000), 1000);
    assert_eq!(st.get_activity("kern", 50_000 + BRIGHT_MS), 500);
    assert!(st.is_working(52_000 + WORKING_TIMEOUT_MS - 1));
    assert!(!st.is_working(52_000 + WORKING_TIMEOUT_MS));

    // re-activation refreshes the decay clock
    st.activate_node("kern", 60_000);
    assert_eq!(st.get_activity("kern", 60_000), 1000);

    let mut live = st.get_active_nodes_map(60_000);
    live.sort();
    // mem is 8000 ms old: 500 * (21000 - 8000) / 15000 thousandths
    assert_eq!(live, vec![(String::from("kern"), 1000), (String::from("mem"), 433)]);
    // nodes past the total decay disappear from the map
    let live = st.get_active_nodes_map(60_000 + TOTAL_DECAY_MS);
    assert!(live.is_empty());
}

#[test]
fn events_log_gate_triggers_on_growth_only() {
    let mut st = WatcherState::new();
    assert!(st.note_events_size(100));
    assert!(!st.note_events_size(100));
    assert!(!st.note_events_size(40));  // truncated: remembered, not read
    assert!(st.note_events_size(90));
}

#[test]
fn pulse_parsing_and_events() {
    let (pulse, acts) = pulse_decision("think: pondering the garden\n", 777).unwrap();
    assert_eq!(pulse.activity_type, "think");
    assert_eq!(pulse.label, "pondering the garden");
    assert_eq!(pulse.timestamp, 777);
    assert_eq!(acts.len(), 2);
    assert_eq!(acts[0].node, "kern");
    assert_eq!(acts[1].node, "bewusstsein");
    assert_eq!(acts[0].file, ".soul-pulse [pondering the garden]");
    assert_eq!(acts[0].event_type, "pulse");

    // upper case folds to the known type; a bare type is its own label
    let (pulse, _) = pulse_decision("DREAM", 1).unwrap();
    assert_eq!(pulse.activity_type, "dream");
    assert_eq!(pulse.label, "DREAM");

    // an empty description falls back to the type text
    let (pulse, _) = pulse_decision("grow:  ", 1).unwrap();
    assert_eq!(pulse.label, "grow");

    assert!(pulse_decision("   \n", 1).is_none());
    assert!(pulse_decision("no-such-type: x", 1).is_none());
}

#[test]
fn event_log_tail_parses_last_three_json_lines() {
    let content = "{\"n\":1}\n\n{\"n\":2}\nnot json\n{\"n\":3}\n{\"n\":4}\n";
    let evs = events_to_emit(content);
    // the last three non-empty lines are considered; the unparsable one is
    // dropped, so exactly the two JSON documents among them come back
    let expect2: serde_json::Value = serde_json::from_str("{\"n\":3}").unwrap();
    let expect3: serde_json::Value = serde_json::from_str("{\"n\":4}").unwrap();
    assert_eq!(evs, vec![expect2, expect3]);

    let evs = events_to_emit("{\"a\":true}\n");
    assert_eq!(evs, vec![serde_json::from_str::<serde_json::Value>("{\"a\":true}").unwrap()]);
    assert!(events_to_emit("").is_empty());
    assert!(events_to_emit("garbage\n").is_empty());
}
