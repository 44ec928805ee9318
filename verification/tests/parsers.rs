use soul_core::config::AppConfig;
use soul_core::envfile::{extract_api_config, merge_env, parse_env};
use soul_core::gitlog::{is_valid_hash, parse_git_log};
use soul_core::paths::{
    is_traversal_free, join_path, path_within, scheme_allowed, validate_soul_path, PathError,
};
use soul_core::resolve::{
    entry_candidates, find_node, git_root_choice, node_candidate, parse_version_output,
    parse_which_output, pick_location, server_js_candidates,
};
use soul_core::seedfile::parse_soul_status;
use soul_core::sidecar::ProcName;

#[test]
fn env_file_round_trip() {
    let content = "# keys\nAPI_KEY = \"abc\"\n\nPORT=3001\nQUOTED='x y'\nnot an assignment\n";
    let entries = parse_env(content);
    assert_eq!(
        entries,
        vec![
            (String::from("API_KEY"), String::from("abc")),
            (String::from("PORT"), String::from("3001")),
            (String::from("QUOTED"), String::from("x y")),
        ]
    );
}

#[test]
fn merge_env_updates_preserves_and_appends() {
    let existing = "# comment stays\nAPI_KEY=old\nKEEP=1\n";
    let entries = vec![
        (String::from("API_KEY"), String::from("new")),
        (String::from("ADDED"), String::from("2")),
    ];
    let merged = merge_env(existing, &entries);
    assert_eq!(merged, "# comment stays\nAPI_KEY=new\nKEEP=1\nADDED=2\n");
}

#[test]
fn merge_env_on_empty_file_appends_all() {
    let entries = vec![(String::from("A"), String::from("1"))];
    assert_eq!(merge_env("", &entries), "A=1\n");
}

#[test]
fn api_config_defaults_and_overrides() {
    assert_eq!(extract_api_config(""), (3001, String::new()));
    let content = "API_PORT=\"4100\"\nAPI_KEY=\"k-1\"\nother=x\n";
    assert_eq!(extract_api_config(content), (4100, String::from("k-1")));
    // an unparsable port keeps the default
    assert_eq!(extract_api_config("API_PORT=abc\n"), (3001, String::new()));
}

#[test]
fn git_log_parses_headers_and_file_counts() {
    let text = "1111111111111111111111111111111111111111|2024-01-02 03:04:05 +0000|first subject\n 3 files changed, 4 insertions(+)\n2222222222222222222222222222222222222222|2024-01-03 03:04:05 +0000|second|with pipe\nnoise line\n";
    let commits = parse_git_log(text);
    assert_eq!(commits.len(), 2);
    assert_eq!(commits[0].hash, "1111111111111111111111111111111111111111");
    assert_eq!(commits[0].date, "2024-01-02 03:04:05 +0000");
    assert_eq!(commits[0].message, "first subject");
    assert_eq!(commits[0].files_changed, 3);
    // a trailing header without a summary line is flushed with zero files
    assert_eq!(commits[1].message, "second|with pipe");
    assert_eq!(commits[1].files_changed, 0);
}

#[test]
fn hash_validation() {
    assert!(is_valid_hash("abc1234"));
    assert!(is_valid_hash("ABCDEF0123456789"));
    assert!(!is_valid_hash("abc123"));  // too short
    assert!(!is_valid_hash("abc1234; rm -rf"));  // not hex
    assert!(!is_valid_hash(""));
}

#[test]
fn seed_header_parsed_into_status() {
    let content = "#SEED v3\n#geboren:2024-05-01 #sessions:42\nmeta | modell: opus | zustand: ruhig, klar\nprojekt:seele\n";
    let st = parse_soul_status(content, 321);
    assert_eq!(st.name, "Seele");
    assert_eq!(st.born, "2024-05-01");
    assert_eq!(st.sessions, 42);
    assert_eq!(st.model, "opus");
    assert_eq!(st.state, "ruhig, klar");
    assert_eq!(st.mood, "ruhig");
    assert_eq!(st.seed_size, 321);
}

#[test]
fn seed_defaults_when_header_is_missing() {
    let st = parse_soul_status("just text\n", 0);
    assert_eq!(st.name, "Soul");
    assert_eq!(st.born, "unknown");
    assert_eq!(st.sessions, 0);
    assert_eq!(st.model, "unknown");
    assert_eq!(st.state, "");
    assert_eq!(st.mood, "");
}

#[test]
fn seed_english_keywords() {
    let st = parse_soul_status("#born:2023-12-24 #sessions:notanumber\nstate: calm\n", 1);
    assert_eq!(st.born, "2023-12-24");
    assert_eq!(st.sessions, 0);
    assert_eq!(st.state, "calm");
    assert_eq!(st.mood, "calm");
}

#[test]
fn soul_path_validation() {
    assert_eq!(validate_soul_path("relative/path"), Err(PathError::NotAbsolute));
    assert_eq!(validate_soul_path(""), Err(PathError::NotAbsolute));
    assert_eq!(validate_soul_path("/etc"), Err(PathError::SystemDir));
    assert_eq!(validate_soul_path("/"), Err(PathError::SystemDir));
    assert_eq!(validate_soul_path("/home/u/Soul"), Ok(()));
    // only the exact directories are blocked, not their children
    assert_eq!(validate_soul_path("/etc/sub"), Ok(()));
}

#[test]
fn traversal_and_containment_checks() {
    assert!(is_traversal_free("notes/today.md"));
    assert!(!is_traversal_free("../outside"));
    assert!(path_within("/a/b", "/a/b"));
    assert!(path_within("/a/b", "/a/b/c.md"));
    assert!(!path_within("/a/b", "/a/bc"));
    assert!(!path_within("/a/b", "/a"));
}

#[test]
fn url_schemes() {
    assert!(scheme_allowed("http"));
    assert!(scheme_allowed("https"));
    assert!(!scheme_allowed("file"));
    assert!(!scheme_allowed("soul"));
}

#[test]
fn directory_skeleton_covers_both_spellings() {
    let dirs = soul_core::paths::soul_directories();
    assert_eq!(dirs.len(), 22);
    assert_eq!(dirs[0], "");
    assert!(dirs.contains(&"erinnerungen/kern"));
    assert!(dirs.contains(&"memories/core"));
    assert!(dirs.contains(&"soul/relationships"));
    assert!(dirs.contains(&"statelog"));
}

#[test]
fn join_path_inserts_single_separator() {
    assert_eq!(join_path("/a", "b"), "/a/b");
    assert_eq!(join_path("/a/", "b"), "/a/b");
    assert_eq!(join_path("/a", "/abs"), "/abs");
}

#[test]
fn resolution_prefers_bundled_over_dev() {
    assert_eq!(
        pick_location(Some(String::from("/res/x")), Some(String::from("/dev/x"))),
        Some(String::from("/res/x"))
    );
    assert_eq!(pick_location(None, Some(String::from("/dev/x"))), Some(String::from("/dev/x")));
    assert_eq!(pick_location(None, None), None);
    assert_eq!(
        find_node(Some(String::from("/res/node")), Some(String::from("/usr/bin/node"))),
        Some(String::from("/res/node"))
    );
    assert_eq!(find_node(None, Some(String::from("/usr/bin/node"))), Some(String::from("/usr/bin/node")));
}

#[test]
fn candidate_locations() {
    let (bundled, dev) = entry_candidates(ProcName::Engine, Some("/res"), "/soul");
    assert_eq!(bundled, Some(String::from("/res/soul-engine/src/index.js")));
    assert_eq!(dev, "/soul/seelen-protokoll/soul-engine/src/index.js");
    let (bundled, dev) = entry_candidates(ProcName::Chain, None, "/soul");
    assert_eq!(bundled, None);
    assert_eq!(dev, "/soul/seelen-protokoll/soul-chain/src/index.js");
    let (bundled, dev) = server_js_candidates(Some("/res"), "/soul");
    assert_eq!(bundled, Some(String::from("/res/soul-engine/src/founding-server.js")));
    assert_eq!(dev, "/soul/seelen-protokoll/soul-engine/src/founding-server.js");
    assert_eq!(node_candidate("/res"), "/res/node/bin/node");
}

#[test]
fn git_root_prefers_controlled_root() {
    assert_eq!(git_root_choice("/s", true, true), Some(String::from("/s")));
    assert_eq!(git_root_choice("/s", false, true), Some(String::from("/s/seelen-protokoll")));
    assert_eq!(git_root_choice("/s", false, false), None);
}

#[test]
fn tool_output_parsing() {
    assert_eq!(parse_which_output(true, "/usr/bin/node\n"), Some(String::from("/usr/bin/node")));
    assert_eq!(parse_which_output(true, "  \n"), None);
    assert_eq!(parse_which_output(false, "/usr/bin/node\n"), None);
    assert_eq!(parse_version_output(true, "v20.1.0\n"), Some(String::from("v20.1.0")));
    assert_eq!(parse_version_output(false, "boom"), None);
}

#[test]
fn app_state_follows_config_and_seed() {
    let cfg = AppConfig::new(String::from("/s"), true);
    assert!(cfg.is_first_run());
    assert_eq!(cfg.app_state(false), "setup");
    assert_eq!(cfg.app_state(true), "setup");
    let cfg = AppConfig::new(String::from("/s"), false);
    assert!(!cfg.is_first_run());
    assert_eq!(cfg.app_state(true), "ready");
    assert_eq!(cfg.app_state(false), "founding");
}

#[test]
fn initial_config_defaults_under_home() {
    let cfg = AppConfig::initial(Some("/home/u"));
    assert!(cfg.is_first_run());
    assert_eq!(cfg.soul_path, "/home/u/Soul");
    let cfg = AppConfig::initial(None);
    assert_eq!(cfg.soul_path, "./Soul");
    assert_eq!(
        soul_core::config::config_file_path("/home/u/.config"),
        "/home/u/.config/com.projectsoul.soulosnew/config.json"
    );
}
