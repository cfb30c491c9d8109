use boop::launcher::{Cleanup, DeployedStub, Launcher};

#[test]
fn launcher_tracks_one_running_app() {
    let mut launcher: Launcher<u32> = Launcher::new();
    assert_eq!(launcher.running_id(), None);
    assert!(!launcher.is_running("a"));
    assert!(launcher.record("a".to_string(), 7, None).is_none());
    assert!(launcher.is_running("a"));
    assert!(!launcher.is_running("b"));
    assert_eq!(launcher.running_start(), Some(&7));
    assert!(launcher.poll(false).is_none());
    assert!(launcher.is_running("a"));
    let done = launcher.poll(true).expect("the app exited");
    assert_eq!(done.id, "a");
    assert_eq!(launcher.running_id(), None);
    assert!(launcher.poll(true).is_none());
}

#[test]
fn kill_hands_back_the_record() {
    let mut launcher: Launcher<u32> = Launcher::new();
    assert!(launcher.kill().is_none());
    launcher.record("x".to_string(), 1, None);
    let old = launcher.record("y".to_string(), 2, None).expect("replaced");
    assert_eq!(old.id, "x");
    let killed = launcher.kill().expect("running");
    assert_eq!(killed.id, "y");
    assert!(!launcher.is_running("y"));
}

#[test]
fn cleanup_undoes_what_was_created() {
    let file_only = DeployedStub { exe: "/g/a.exe".to_string(), created_dir: None };
    assert!(matches!(file_only.cleanup(), Cleanup::RemoveFile(f) if f == "/g/a.exe"));
    let with_dir = DeployedStub { exe: "/g/new/a.exe".to_string(), created_dir: Some("/g/new".to_string()) };
    assert!(matches!(with_dir.cleanup(), Cleanup::RemoveDir(d) if d == "/g/new"));
}
