use time_machine_inspector::cache::{Begin, LoadedBackupsMap};
use time_machine_inspector::dir_map::{DirMap, LoadedBackupItem};
use time_machine_inspector::error::Error;

fn map_with(dir: &str, base: &str, size: u64) -> DirMap {
    let mut m = DirMap::new();
    let (contents, name) = m.item_entry(&format!("{}/{}", dir, base)).unwrap();
    contents.insert(name, LoadedBackupItem { size });
    m
}

#[test]
fn cached_reads_do_not_compute_again() {
    let mut c = LoadedBackupsMap::new();
    assert_eq!(c.begin("/o", "/n", false).unwrap(), Begin::Started);
    c.finish("/o".to_string(), "/n".to_string(), map_with("/d", "f", 5));
    assert_eq!(c.begin("/o", "/n", false).unwrap(), Begin::Cached);
    assert_eq!(c.begin("/o", "/n", false).unwrap(), Begin::Cached);
    let first = c.get("/o", "/n").unwrap().map.get("/d").unwrap().get("f").unwrap().size;
    let second = c.get("/o", "/n").unwrap().map.get("/d").unwrap().get("f").unwrap().size;
    assert_eq!(first, 5);
    assert_eq!(first, second);
}

#[test]
fn a_second_request_while_loading_is_refused() {
    let mut c = LoadedBackupsMap::new();
    assert_eq!(c.begin("/o", "/n", false).unwrap(), Begin::Started);
    assert!(matches!(c.begin("/o", "/n", false), Err(Error::AlreadyLoading)));
    assert!(matches!(c.begin("/o", "/n", true), Err(Error::AlreadyLoading)));
    assert!(c.get("/o", "/n").is_none());
    let info = c.info();
    assert_eq!(info.len(), 1);
    assert!(info[0].loading);
    assert_eq!(info[0].old, "/o");
}

#[test]
fn a_failed_computation_can_be_retried() {
    let mut c = LoadedBackupsMap::new();
    assert_eq!(c.begin("/o", "/n", false).unwrap(), Begin::Started);
    c.abandon("/o", "/n");
    assert_eq!(c.info().len(), 0);
    assert_eq!(c.begin("/o", "/n", false).unwrap(), Begin::Started);
}

#[test]
fn refresh_recomputes_a_cached_comparison() {
    let mut c = LoadedBackupsMap::new();
    c.begin("/o", "/n", false).unwrap();
    c.finish("/o".to_string(), "/n".to_string(), DirMap::new());
    assert_eq!(c.begin("/o", "/n", true).unwrap(), Begin::Started);
    assert!(c.get("/o", "/n").is_none());
    assert_eq!(c.begin("/o", "/x", false).unwrap(), Begin::Started);
    let info = c.info();
    assert_eq!(info.len(), 2);
    assert!(info.iter().all(|i| i.loading));
}
