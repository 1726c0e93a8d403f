use mc_bedrock_tools::check_lockfile;
use mc_bedrock_tools::coordinator::bedrock_export_plan;
use mc_bedrock_tools::coordinator::java_export_plan;
use mc_bedrock_tools::lockfile::lockfile_decision;
use mc_bedrock_tools::paths::base_name;
use mc_bedrock_tools::BackupCoordinator;
use mc_bedrock_tools::BackupError;
use mc_bedrock_tools::EngineMode;
use mc_bedrock_tools::ExportPlan;

#[test]
fn bedrock_run_follows_the_protocol() {
    let mut coord = BackupCoordinator::new(EngineMode::Bedrock);
    let hold = coord.start_hold();
    assert_eq!(hold, "save hold\n");
    assert_eq!(coord.poll_query(), Some("save query\n"));
    // The first drain shows no marker: keep polling.
    assert!(!coord.note_drained("[log] server chatter\n"));
    // The marker arrives split across two drains; accumulation catches it.
    assert!(!coord.note_drained("[log] Data saved. Files are now re"));
    assert!(coord.note_drained("ady to be copied.\ndb/1:10, db/2:0\n"));
    let plan = coord
        .export_plan(&vec!["/data/world".to_string()])
        .expect("bedrock plan");
    match plan {
        ExportPlan::Files { world_dir, entries } => {
            assert_eq!(world_dir, "/data/world".to_string());
            assert_eq!(entries.len(), 1);
            assert_eq!(entries[0].path, "db/1".to_string());
            assert_eq!(entries[0].size, 10);
        }
        ExportPlan::Dirs { .. } => panic!("wrong strategy"),
    }
    coord.note_exported();
    assert_eq!(coord.finish_resume(), "save resume\n");
}

#[test]
fn java_run_follows_the_protocol() {
    let mut coord = BackupCoordinator::new(EngineMode::Java);
    assert_eq!(coord.start_hold(), "save-off\nsave-all\n");
    assert_eq!(coord.poll_query(), None);
    assert!(coord.note_drained("[12:00:00] [Server thread/INFO]: Saved the game\n"));
    let plan = coord
        .export_plan(&vec![
            "/data/Bedrock level/world".to_string(),
            "/data/Bedrock level/nether".to_string(),
        ])
        .expect("java plan");
    match plan {
        ExportPlan::Dirs { dirs } => {
            assert_eq!(dirs.len(), 2);
            assert_eq!(dirs[0].name, "world".to_string());
            assert_eq!(dirs[0].path, "/data/Bedrock level/world".to_string());
            assert_eq!(dirs[1].name, "nether".to_string());
        }
        ExportPlan::Files { .. } => panic!("wrong strategy"),
    }
    coord.note_exported();
    assert_eq!(coord.finish_resume(), "save-on\n");
}

#[test]
fn failure_is_absorbing() {
    let mut coord = BackupCoordinator::new(EngineMode::Bedrock);
    coord.start_hold();
    coord.note_failed();
    // Nothing further is owed after a failure; the run is abandoned.
}

#[test]
fn bedrock_plan_keeps_manifest_order() {
    let text = "x Data saved. Files are now ready to be copied.\nb:2, a:1, c: 0, d:4\n";
    let plan = bedrock_export_plan(text, &"/w".to_string());
    match plan {
        ExportPlan::Files { world_dir, entries } => {
            assert_eq!(world_dir, "/w".to_string());
            let got: Vec<(String, u64)> =
                entries.iter().map(|e| (e.path.clone(), e.size)).collect();
            assert_eq!(
                got,
                vec![
                    ("b".to_string(), 2),
                    ("a".to_string(), 1),
                    ("d".to_string(), 4)
                ]
            );
        }
        ExportPlan::Dirs { .. } => panic!("wrong strategy"),
    }
}

#[test]
fn java_plan_rejects_unnamable_directory() {
    let r = java_export_plan(&vec!["/data/world".to_string(), "/".to_string()]);
    assert!(matches!(r, Err(BackupError::UnnamableWorldDir)));
}

#[test]
fn base_names_of_directories() {
    assert_eq!(
        base_name("/data/Bedrock level/world"),
        Some("world".to_string())
    );
    assert_eq!(base_name("a//b/"), Some("b".to_string()));
    assert_eq!(base_name("plain"), Some("plain".to_string()));
    assert_eq!(base_name("/"), None);
    assert_eq!(base_name(""), None);
    assert_eq!(base_name("a/.."), None);
    assert_eq!(base_name("a/."), None);
}

#[test]
fn lockfile_presence_decides() {
    assert!(matches!(lockfile_decision(false), Ok(())));
    assert!(matches!(
        lockfile_decision(true),
        Err(BackupError::LockfilePresent)
    ));
    // Whatever the disk says, the only refusal is the lock error.
    if let Err(e) = check_lockfile() {
        assert!(matches!(e, BackupError::LockfilePresent));
    }
}
