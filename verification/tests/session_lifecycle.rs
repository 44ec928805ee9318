use soul_core::pty::{PtyError, PtyManager};

#[test]
fn handles_strictly_increasing_and_never_reused() {
    let mut mgr = PtyManager::new(String::from("/tmp/soul"));
    let a = mgr.create();
    let b = mgr.create();
    let c = mgr.create();
    assert_eq!((a, b, c), (1, 2, 3));
    // closing and creating again never reuses a handle
    assert!(mgr.close(b));
    let d = mgr.create();
    assert_eq!(d, 4);
    assert!(a >= 1 && a < b && b < c && c < d);
}

#[test]
fn close_is_idempotent() {
    let mut mgr = PtyManager::new(String::from("/tmp/soul"));
    let id = mgr.create();
    assert!(mgr.close(id));
    // second close of the same handle is a no-op, not an error
    assert!(!mgr.close(id));
    // closing a handle that never existed is a no-op too
    assert!(!mgr.close(999));
}

#[test]
fn write_and_resize_admit_only_known_handles() {
    let mut mgr = PtyManager::new(String::from("/tmp/soul"));
    let id = mgr.create();
    assert!(mgr.write(id).is_ok());
    assert_eq!(mgr.resize(id, 120, 40), Ok((120, 40)));
    assert_eq!(mgr.write(77), Err(PtyError::NotFound));
    assert_eq!(mgr.resize(77, 80, 24), Err(PtyError::NotFound));
    mgr.close(id);
    assert_eq!(mgr.write(id), Err(PtyError::NotFound));
}

#[test]
fn shutdown_surrenders_every_open_session() {
    let mut mgr = PtyManager::new(String::from("/tmp/soul"));
    let a = mgr.create();
    let b = mgr.create();
    let c = mgr.create();
    mgr.close(b);
    let ids = mgr.shutdown();
    assert_eq!(ids, vec![a, c]);
    // nothing is left open afterwards
    assert!(!mgr.has_session(a));
    assert!(!mgr.has_session(c));
    assert_eq!(mgr.shutdown(), Vec::<u32>::new());
}

#[test]
fn shell_env_curates_and_withholds_secrets() {
    let mgr = PtyManager::new(String::from("/home/u/Soul"));
    let host = vec![
        (String::from("HOME"), String::from("/home/u")),
        (String::from("ANTHROPIC_API_KEY"), String::from("SECRET-REDACTED")),
        (String::from("PATH"), String::from("/usr/bin")),
        (String::from("LANG"), String::from("de_DE.UTF-8")),
        (String::from("RANDOM_OTHER"), String::from("x")),
    ];
    let env = mgr.shell_env(&host, "1.2.3");
    let get = |k: &str| env.iter().find(|p| p.0 == k).map(|p| p.1.clone());

    // the nesting guard is cleared, the terminal identifies itself
    assert_eq!(get("CLAUDECODE"), Some(String::new()));
    assert_eq!(get("TERM"), Some(String::from("xterm-256color")));
    assert_eq!(get("COLORTERM"), Some(String::from("truecolor")));
    assert_eq!(get("TERM_PROGRAM"), Some(String::from("SoulOS")));
    assert_eq!(get("TERM_PROGRAM_VERSION"), Some(String::from("1.2.3")));
    // locale passes through, with a fallback when the host has none
    assert_eq!(get("LANG"), Some(String::from("de_DE.UTF-8")));
    assert_eq!(get("LC_CTYPE"), Some(String::from("en_US.UTF-8")));
    // allow-listed variables pass through
    assert_eq!(get("HOME"), Some(String::from("/home/u")));
    assert_eq!(get("PATH"), Some(String::from("/usr/bin")));
    // the controlled root is handed to the shell
    assert_eq!(get("SOUL_PATH"), Some(String::from("/home/u/Soul")));
    assert_eq!(get("INSIDE_SOUL_OS"), Some(String::from("1")));
    // secret-bearing and unlisted variables are withheld
    assert_eq!(get("ANTHROPIC_API_KEY"), None);
    assert_eq!(get("RANDOM_OTHER"), None);
}

#[test]
fn shell_env_locale_fallback_and_absent_allowlist() {
    let mgr = PtyManager::new(String::from("/s"));
    let env = mgr.shell_env(&Vec::new(), "0.1.0");
    let get = |k: &str| env.iter().find(|p| p.0 == k).map(|p| p.1.clone());
    assert_eq!(get("LANG"), Some(String::from("en_US.UTF-8")));
    assert_eq!(get("HOME"), None);
    assert_eq!(get("SSH_AUTH_SOCK"), None);
}
