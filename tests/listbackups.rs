use time_machine_inspector::cmd::{cached_backups, check_cmd_success, code_to_str, comparison_pair, parse_output};
use time_machine_inspector::error::Error;
use time_machine_inspector::listbackups::{
    backups_from_paths, listing_paths, listing_result, name_from_matches, name_from_path,
    needs_machine_directory, path_components, Backup, Destination, Destinations,
};
use time_machine_inspector::str_map::StrMap;

#[test]
fn test_name_from_path() {
    assert_eq!(
        name_from_path(
            "/Volumes/Time Machine Backups/Backups.backupdb/computer-name/2022-08-09-032130",
        ),
        "2022-08-09-032130"
    );
    assert_eq!(
        name_from_path(
            "/Volumes/.timemachine/C5DA5A96-328E-40F3-9FD6-DB1AC872F6A6/2022-08-09-032130.backup/2022-08-09-032130.backup",
        ),
        "2022-08-09-032130"
    );
    assert_eq!(name_from_path("/Volumes/Something/else"), "else");
    assert_eq!(name_from_path("/Volumes"), "/Volumes");
}

#[test]
fn name_from_matches_follows_the_flags() {
    let p = "/Volumes/Disk/Backups.backupdb/host/2022-08-09-032130.backup";
    assert_eq!(name_from_matches(p, true, false), "2022-08-09-032130.backup");
    assert_eq!(name_from_matches(p, false, true), "2022-08-09-032130");
    assert_eq!(name_from_matches(p, false, false), "Backups.backupdb/host/2022-08-09-032130.backup");
    assert_eq!(name_from_matches("relative/path", false, false), "relative/path");
    assert_eq!(name_from_matches("/Volumes/Disk", false, false), "");
}

#[test]
fn bundle_extension_is_removed_once_per_repetition() {
    assert_eq!(name_from_matches("/x/a.backup.backup", false, true), "a");
}

#[test]
fn unexpected_last_components_keep_the_whole_path() {
    assert_eq!(name_from_path("/Users/someone/2022-08-09"), "/Users/someone/2022-08-09");
    assert_eq!(name_from_path("/Volumes/Disk/2022-08-09-0321301"), "2022-08-09-0321301");
}

#[test]
fn path_components_skip_empty_and_dot() {
    assert_eq!(path_components("/a//b/./c/"), vec!["/", "a", "b", "c"]);
    assert_eq!(path_components("rel/x"), vec!["rel", "x"]);
    assert!(path_components("").is_empty());
}

#[test]
fn listing_paths_trims_and_drops_empty_lines() {
    assert_eq!(listing_paths("  /a/b\n/c\n\n \t"), vec!["/a/b", "/c"]);
    assert!(listing_paths("\n  \n").is_empty());
}

#[test]
fn empty_catalog_when_no_machine_directory() {
    let r = listing_result(false, Some(1), Vec::new(), b"No machine directory found for host.\n".to_vec());
    assert_eq!(r.unwrap().len(), 0);
    let r = listing_result(false, Some(1), b"no machine directory found for host".to_vec(), Vec::new());
    assert_eq!(r.unwrap().len(), 0);
}

#[test]
fn other_listing_failures_are_errors() {
    let r = listing_result(false, Some(75), Vec::new(), b"Permission denied".to_vec());
    match r {
        Err(Error::CommandExecution(m)) => assert_eq!(m, "tmutil error 75:\nPermission denied"),
        other => panic!("unexpected {:?}", other.map(|v| v.len())),
    }
}

#[test]
fn successful_listing_gives_paths() {
    let r = listing_result(true, Some(0), b"/Volumes/D/a\nb\n".to_vec(), Vec::new()).unwrap();
    assert_eq!(r, vec!["/Volumes/D/a", "b"]);
    assert!(needs_machine_directory(&r));
    assert!(!needs_machine_directory(&vec!["/x".to_string()]));
}

#[test]
fn relative_paths_resolve_below_machine_directory() {
    let paths = vec!["/Volumes/D/2022-08-09-032130".to_string(), "2023-01-02-030405".to_string()];
    let backups = backups_from_paths(&paths, "/Volumes/D/Backups.backupdb/host");
    assert_eq!(backups.len(), 2);
    assert_eq!(backups[0].path, "/Volumes/D/2022-08-09-032130");
    assert_eq!(backups[0].name, "2022-08-09-032130");
    assert_eq!(backups[1].path, "/Volumes/D/Backups.backupdb/host/2023-01-02-030405");
    assert_eq!(backups[1].name, "2023-01-02-030405");
}

#[test]
fn exit_codes_in_decimal() {
    assert_eq!(code_to_str(Some(0)), "0");
    assert_eq!(code_to_str(Some(-12)), "-12");
    assert_eq!(code_to_str(Some(i32::MIN)), "-2147483648");
    assert_eq!(code_to_str(Some(1234567)), "1234567");
    assert_eq!(code_to_str(None), "None");
}

#[test]
fn command_outcomes() {
    assert!(check_cmd_success(true, Some(0), vec![0xff]).is_ok());
    match check_cmd_success(false, None, b"boom".to_vec()) {
        Err(Error::CommandExecution(m)) => assert_eq!(m, "tmutil error None:\nboom"),
        _ => panic!("expected a command error"),
    }
    match check_cmd_success(false, Some(2), vec![0xff, 0xfe]) {
        Err(Error::CommandExecution(m)) => assert_eq!(m, "Unable to parse output: invalid UTF-8"),
        _ => panic!("expected a command error"),
    }
    assert_eq!(parse_output("héllo".as_bytes().to_vec()).unwrap(), "héllo");
    assert!(parse_output(vec![0xc3]).is_err());
}

fn catalog() -> Destinations {
    let mut m: StrMap<Destination> = StrMap::new();
    let backups = vec![
        Backup { path: "/V/D/2022-01-01-000000".to_string(), name: "2022-01-01-000000".to_string() },
        Backup { path: "/V/D/2022-01-02-000000".to_string(), name: "2022-01-02-000000".to_string() },
    ];
    m.insert("dest".to_string(), Destination { backups: Some(backups), mount_point: "/V/D".to_string() });
    m.insert("other".to_string(), Destination { backups: None, mount_point: "/V/E".to_string() });
    Destinations { destinations: Some(m) }
}

#[test]
fn previous_snapshot_lookup() {
    let d = catalog();
    let (old, new) = comparison_pair(&d, "dest", "/V/D/2022-01-02-000000").unwrap();
    assert_eq!(old, "/V/D/2022-01-01-000000");
    assert_eq!(new, "/V/D/2022-01-02-000000");
    match comparison_pair(&d, "dest", "/V/D/2022-01-01-000000") {
        Err(Error::NotFound(what)) => assert_eq!(what, "backup before /V/D/2022-01-01-000000"),
        _ => panic!("expected not found"),
    }
    assert!(matches!(comparison_pair(&d, "dest", "/nope"), Err(Error::NotFound(w)) if w == "/nope"));
    assert!(matches!(comparison_pair(&d, "other", "/x"), Err(Error::NotFound(w)) if w == "backup list"));
    assert!(matches!(comparison_pair(&d, "missing", "/x"), Err(Error::NotFound(w)) if w == "missing"));
    let empty = Destinations::new();
    assert!(matches!(comparison_pair(&empty, "dest", "/x"), Err(Error::NotFound(w)) if w == "destinations"));
}

#[test]
fn destinations_are_found_and_updated() {
    let mut d = catalog();
    {
        let dest = d.get_destination("other").unwrap();
        let listed = dest.load_backups_list(vec![Backup { path: "/p".to_string(), name: "p".to_string() }]);
        assert_eq!(listed.len(), 1);
    }
    let dest = d.get_destination("other").unwrap();
    assert_eq!(dest.backups.as_ref().unwrap()[0].path, "/p");
    assert!(matches!(d.get_destination("nope"), Err(Error::NotFound(w)) if w == "nope"));
}

#[test]
fn loaded_backup_lists_answer_requests_without_refresh() {
    let d = catalog();
    assert_eq!(cached_backups(&d, "dest", false).unwrap().unwrap().len(), 2);
    assert!(cached_backups(&d, "dest", true).unwrap().is_none());
    assert!(cached_backups(&d, "other", false).unwrap().is_none());
    assert!(matches!(cached_backups(&d, "missing", false), Err(Error::NotFound(w)) if w == "missing"));
    let empty = Destinations::new();
    assert!(matches!(cached_backups(&empty, "dest", false), Err(Error::NotFound(w)) if w == "destinations"));
}

#[test]
fn bundle_names_need_the_literal_extension() {
    assert_eq!(name_from_path("/x/2022-08-09-032130.backup"), "2022-08-09-032130");
    assert_eq!(name_from_path("/x/2022-08-09-032130Xbackup"), "/x/2022-08-09-032130Xbackup");
}
