use debtap_rs::attempts::{CreationReply, NextAttempt};
use debtap_rs::workspace::{
    application_root, cache_home, cleanup_default_stale_workspaces, cleanup_stale_owned_work,
    cleanup_stale_workspaces, next_workspace_attempt, process_is_running, removes_entry,
    stale_workspace, validate_application_root, workspace_name, workspace_pid, CleanupOutcome,
    EntryFacts, Workspace, WorkspaceIdentity, DIRECTORY_MODE,
};

const STALE: &[u8] = b"work-4294967295-00000000000000000000000000000000-0000000000000000";

fn identity() -> WorkspaceIdentity {
    WorkspaceIdentity {
        process: 321,
        nanoseconds: 0xabc,
        counter: 7,
    }
}

fn old_directory() -> EntryFacts {
    EntryFacts {
        is_link: false,
        is_directory: true,
        owner: 1000,
        age: 10,
    }
}

#[test]
fn workspace_has_all_private_directories_and_cleans_up() {
    let workspace = Workspace::create_in(b"/cache", &identity(), false);
    let root = "/cache/debtap-rs/work-321-00000000000000000000000000000abc-0000000000000007";
    assert_eq!(workspace.root(), root.as_bytes());
    assert_eq!(workspace.path(), root.as_bytes());
    assert_eq!(workspace.members_dir(), format!("{root}/members").as_bytes());
    assert_eq!(workspace.control_dir(), format!("{root}/control").as_bytes());
    assert_eq!(workspace.payload_dir(), format!("{root}/root").as_bytes());
    assert_eq!(workspace.root_dir(), format!("{root}/root").as_bytes());
    assert_eq!(workspace.output_dir(), format!("{root}/output").as_bytes());
    let directories = workspace.directories();
    assert_eq!(directories.len(), 5);
    assert_eq!(directories[0], workspace.root());
    for directory in [
        workspace.members_dir(),
        workspace.control_dir(),
        workspace.payload_dir(),
        workspace.output_dir(),
    ] {
        assert_eq!(directories.iter().filter(|path| path.as_slice() == directory).count(), 1);
    }
    assert_eq!(DIRECTORY_MODE & 0o777, 0o700);
    assert!(!workspace.is_kept());
    assert_eq!(workspace.directory_to_remove(), Some(root.as_bytes()));
}

#[test]
fn names_for_workspaces_run_out() {
    let taken = |made: u32| next_workspace_attempt(made, CreationReply::Taken);
    assert_eq!(taken(0).expect("more names"), NextAttempt::Again(1));
    assert_eq!(
        taken(127).unwrap_err().to_string(),
        "could not allocate a unique debtap-rs workspace after 128 attempts"
    );
    assert_eq!(
        next_workspace_attempt(127, CreationReply::Created).expect("created"),
        NextAttempt::Finished
    );
}

#[test]
fn kept_workspace_remains() {
    let workspace = Workspace::create_in(b"/cache", &identity(), true);
    assert!(workspace.is_kept());
    assert_eq!(workspace.directory_to_remove(), None);
    let mut workspace = Workspace::create_in(b"/cache", &identity(), false);
    let path = workspace.preserve();
    assert_eq!(path, workspace.root());
    assert!(workspace.is_kept());
    assert_eq!(workspace.directory_to_remove(), None);
    workspace.set_keep(false);
    assert!(!workspace.is_kept());
}

#[test]
fn cleanup_removes_only_exact_stale_workspace_names() {
    assert_eq!(
        stale_workspace(STALE, &old_directory(), 1000, 0),
        Some(u32::MAX)
    );
    assert_eq!(
        stale_workspace(b"work-not-a-debtap-workspace", &old_directory(), 1000, 0),
        None
    );
    let outcomes = vec![CleanupOutcome::Removed, CleanupOutcome::Kept];
    let removed = cleanup_stale_workspaces(&outcomes).expect("clean stale workspaces");
    assert_eq!(removed, 1);
}

#[test]
fn cleanup_does_not_follow_a_workspace_shaped_symlink() {
    let link = EntryFacts {
        is_link: true,
        is_directory: false,
        ..old_directory()
    };
    assert_eq!(stale_workspace(STALE, &link, 1000, 0), None);
    let removed =
        cleanup_stale_workspaces(&vec![CleanupOutcome::Kept]).expect("clean stale workspaces");
    assert_eq!(removed, 0);
}

#[test]
fn young_and_foreign_workspaces_stay() {
    assert_eq!(stale_workspace(STALE, &old_directory(), 1001, 0), None);
    assert_eq!(stale_workspace(STALE, &old_directory(), 1000, 11), None);
    assert_eq!(
        stale_workspace(STALE, &old_directory(), 1000, 10),
        Some(u32::MAX)
    );
    assert!(process_is_running(5, 5, false));
    assert!(process_is_running(5, 6, true));
    assert!(!process_is_running(5, 6, false));
}

#[test]
fn only_old_workspaces_of_ended_processes_are_removed() {
    let removes = |name: &[u8], facts: EntryFacts, own_process: u32, is_listed: bool| {
        removes_entry(name, &facts, 1000, 10, own_process, is_listed)
    };
    assert!(removes(STALE, old_directory(), 1, false));
    assert!(!removes(STALE, old_directory(), u32::MAX, false));
    assert!(!removes(STALE, old_directory(), 1, true));
    assert!(!removes(b"work-not-a-debtap-workspace", old_directory(), 1, false));
    let link = EntryFacts {
        is_link: true,
        ..old_directory()
    };
    assert!(!removes(STALE, link, 1, false));
    let young = EntryFacts {
        age: 9,
        ..old_directory()
    };
    assert!(!removes(STALE, young, 1, false));
}

#[test]
fn a_cleanup_reports_the_first_failure() {
    let outcomes = vec![
        CleanupOutcome::Removed,
        CleanupOutcome::Failed("first".to_string()),
        CleanupOutcome::Failed("second".to_string()),
    ];
    assert_eq!(
        cleanup_stale_owned_work(&outcomes).unwrap_err().to_string(),
        "first"
    );
}

#[test]
fn workspace_names_tell_their_process() {
    for process in [0, 1, 4_294_967_295] {
        let name = workspace_name(&WorkspaceIdentity {
            process,
            nanoseconds: u128::MAX,
            counter: u64::MAX,
        });
        assert_eq!(workspace_pid(name.as_bytes()), Some(process));
    }
    for name in [
        "work",
        "work--00000000000000000000000000000000-0000000000000000",
        "work-1-0-0",
        "work-4294967296-00000000000000000000000000000000-0000000000000000",
        "work-1-0000000000000000000000000000000g-0000000000000000",
        "work-1-00000000000000000000000000000000-0000000000000000-",
        "Work-1-00000000000000000000000000000000-0000000000000000",
    ] {
        assert_eq!(workspace_pid(name.as_bytes()), None, "{name}");
    }
    assert_eq!(workspace_pid(&[0xff]), None);
}

#[test]
fn the_cache_directory_is_absolute() {
    assert_eq!(cache_home(Some(b"/c"), Some(b"/h")).expect("cache"), b"/c");
    assert_eq!(cache_home(Some(b"c"), Some(b"/h")).expect("home"), b"/h/.cache");
    assert_eq!(cache_home(None, Some(b"/h")).expect("home"), b"/h/.cache");
    assert_eq!(
        cache_home(None, Some(b"h")).unwrap_err().to_string(),
        "could not find an absolute XDG_CACHE_HOME or HOME directory"
    );
    assert_eq!(application_root(b"/c"), b"/c/debtap-rs");
    assert_eq!(
        cleanup_default_stale_workspaces(None, Some(b"/h")).expect("directory"),
        b"/h/.cache/debtap-rs"
    );
    assert!(cleanup_default_stale_workspaces(None, None).is_err());
    assert!(Workspace::create(None, None, &identity(), false).is_err());
    assert_eq!(
        Workspace::new(None, Some(b"/h"), &identity(), false).expect("workspace").root(),
        Workspace::create_in(b"/h/.cache", &identity(), false).root()
    );
}

#[test]
fn the_application_directory_belongs_to_the_user() {
    assert!(validate_application_root(b"/c", false, true, 1, 1).is_ok());
    assert_eq!(
        validate_application_root(b"/c", true, true, 1, 1).unwrap_err().to_string(),
        "cache path is not a real directory: /c"
    );
    assert_eq!(
        validate_application_root(b"/c", false, true, 0, 1).unwrap_err().to_string(),
        "cache directory /c is not owned by the current user"
    );
}
