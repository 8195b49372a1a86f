use time_machine_inspector::compare::{Add, Change, Comparison, Delete, Item, Totals, Update};
use time_machine_inspector::decode::{decode_change, decode_item, parse_xml};
use time_machine_inspector::dir_map::DirMap;
use time_machine_inspector::error::Error;
use time_machine_inspector::path::{components_of, get_basename, get_parent};
use time_machine_inspector::value::PlistValue;

fn item(path: &str, size: u64) -> Item {
    Item { path: path.to_string(), size }
}

fn totals() -> Totals {
    Totals { added_size: 0, changed_size: 0, removed_size: 0 }
}

fn size_at(m: &DirMap, dir: &str, base: &str) -> Option<u64> {
    m.map.get(dir).and_then(|c| c.get(base)).map(|i| i.size)
}

#[test]
fn sizes_accumulate_at_every_ancestor() {
    let comparison = Comparison {
        changes: vec![
            Change::Add(Add { added_item: item("/a/b/c.txt", 10) }),
            Change::Update(Update {
                differences: vec!["Size".to_string()],
                newer_item: item("/a/d", 5),
                older_item: item("/a/d", 1),
            }),
            Change::Delete(Delete { removed_item: item("/a/x", 100) }),
            Change::Add(Add { added_item: item("/a/b/e", 7) }),
        ],
        totals: totals(),
    };
    assert_eq!(comparison.new_items_size(), Some(22));
    let m = DirMap::from_comparison(comparison).unwrap();
    assert_eq!(size_at(&m, "/a/b", "c.txt"), Some(10));
    assert_eq!(size_at(&m, "/a/b", "e"), Some(7));
    assert_eq!(size_at(&m, "/a", "b"), Some(17));
    assert_eq!(size_at(&m, "/a", "d"), Some(5));
    assert_eq!(size_at(&m, "/", "a"), Some(22));
    assert_eq!(size_at(&m, "/a", "x"), None);
    assert_eq!(m.map.len(), 3);
}

#[test]
fn deletions_alone_give_an_empty_map() {
    let comparison = Comparison {
        changes: vec![Change::Delete(Delete { removed_item: item("/a/x", 100) })],
        totals: totals(),
    };
    let m = DirMap::from_comparison(comparison).unwrap();
    assert_eq!(m.map.len(), 0);
}

#[test]
fn relative_paths_are_malformed() {
    let comparison = Comparison {
        changes: vec![
            Change::Add(Add { added_item: item("/ok", 1) }),
            Change::Add(Add { added_item: item("a/b", 1) }),
            Change::Add(Add { added_item: item("", 1) }),
        ],
        totals: totals(),
    };
    match DirMap::from_comparison(comparison) {
        Err(Error::MalformedPath(p)) => assert_eq!(p, ""),
        _ => panic!("expected a malformed path"),
    }
}

fn added(path: &str) -> Comparison {
    Comparison { changes: vec![Change::Add(Add { added_item: item(path, 2) })], totals: totals() }
}

#[test]
fn walks_stop_at_a_component_without_a_name() {
    match DirMap::from_comparison(added("/a/..")) {
        Err(Error::MalformedPath(p)) => assert_eq!(p, "/a/.."),
        _ => panic!("expected a malformed path"),
    }
    match DirMap::from_comparison(added("/a/../b/c")) {
        Err(Error::MalformedPath(p)) => assert_eq!(p, "/a/.."),
        _ => panic!("expected a malformed path"),
    }
    match DirMap::from_comparison(added("./x")) {
        Err(Error::MalformedPath(p)) => assert_eq!(p, "."),
        _ => panic!("expected a malformed path"),
    }
}

#[test]
fn paths_are_read_by_their_components() {
    let m = DirMap::from_comparison(added("/a//b/./c/")).unwrap();
    assert_eq!(size_at(&m, "/a/b", "c"), Some(2));
    assert_eq!(size_at(&m, "/a", "b"), Some(2));
    assert_eq!(size_at(&m, "/", "a"), Some(2));
    assert_eq!(m.map.len(), 3);
    let m = DirMap::from_comparison(added("/")).unwrap();
    assert_eq!(m.map.len(), 0);
}

#[test]
fn sizes_that_do_not_fit_are_reported() {
    let comparison = Comparison {
        changes: vec![
            Change::Add(Add { added_item: item("/a", u64::MAX) }),
            Change::Add(Add { added_item: item("/b", 1) }),
        ],
        totals: totals(),
    };
    assert_eq!(comparison.new_items_size(), None);
}

#[test]
fn paths_split_into_parent_and_base() {
    assert_eq!(get_parent("/a/b").unwrap(), "/a");
    assert_eq!(get_parent("/a").unwrap(), "/");
    assert_eq!(get_parent("/a/b/").unwrap(), "/a");
    assert_eq!(get_parent("/a//b").unwrap(), "/a");
    assert_eq!(get_parent("foo").unwrap(), "");
    assert_eq!(get_parent("/a/..").unwrap(), "/a");
    assert!(get_parent("/").is_err());
    assert!(get_parent("").is_err());
    assert_eq!(get_basename("/a/b").unwrap(), "b");
    assert_eq!(get_basename("/a/").unwrap(), "a");
    assert!(matches!(get_basename("/a/.."), Err(Error::MalformedPath(p)) if p == "/a/.."));
    assert!(get_basename("/").is_err());
    assert_eq!(components_of("/a//b/./c/"), vec!["a", "b", "c"]);
    assert_eq!(components_of("./a/./b"), vec![".", "a", "b"]);
    assert_eq!(components_of("a/../b"), vec!["a", "..", "b"]);
}

#[test]
fn item_entries_give_the_directory_and_the_name() {
    let mut m = DirMap::new();
    {
        let (contents, name) = m.item_entry("/a/b/").unwrap();
        assert_eq!(name, "b");
        assert_eq!(contents.len(), 0);
        contents.insert(name, time_machine_inspector::dir_map::LoadedBackupItem { size: 4 });
    }
    assert_eq!(size_at(&m, "/a", "b"), Some(4));
    assert!(m.item_entry("/a/..").is_err());
    assert!(m.item_entry("/").is_err());
    assert_eq!(m.map.len(), 1);
    assert_eq!(m.get_or_create_dir("/z".to_string()).len(), 0);
}

fn s(x: &str) -> PlistValue {
    PlistValue::String(x.to_string())
}

fn dict(entries: Vec<(&str, PlistValue)>) -> PlistValue {
    PlistValue::Dictionary(entries.into_iter().map(|(k, v)| (k.to_string(), v)).collect())
}

fn plist_item(path: &str, size: i128) -> PlistValue {
    dict(vec![("Path", s(path)), ("Size", PlistValue::Integer(size))])
}

#[test]
fn each_record_shape_decodes_to_its_variant() {
    let add = dict(vec![("AddedItem", plist_item("/a", 3))]);
    match decode_change(&add) {
        Some(Change::Add(a)) => {
            assert_eq!(a.added_item.path, "/a");
            assert_eq!(a.added_item.size, 3);
        },
        _ => panic!("expected an addition"),
    }
    let update = dict(vec![
        ("Differences", PlistValue::Array(vec![s("Size"), s("Mtime")])),
        ("NewerItem", plist_item("/b", 9)),
        ("OlderItem", plist_item("/b", 8)),
    ]);
    match decode_change(&update) {
        Some(Change::Update(u)) => {
            assert_eq!(u.differences, vec!["Size", "Mtime"]);
            assert_eq!(u.newer_item.size, 9);
            assert_eq!(u.older_item.size, 8);
        },
        _ => panic!("expected an update"),
    }
    let delete = dict(vec![("removed_item", plist_item("/c", 1))]);
    assert!(matches!(decode_change(&delete), Some(Change::Delete(d)) if d.removed_item.path == "/c"));
}

#[test]
fn mixed_or_incomplete_records_are_rejected() {
    let mixed = dict(vec![("AddedItem", plist_item("/a", 3)), ("RemovedItem", plist_item("/a", 3))]);
    assert!(decode_change(&mixed).is_none());
    let missing = dict(vec![
        ("Differences", PlistValue::Array(vec![])),
        ("NewerItem", plist_item("/b", 9)),
    ]);
    assert!(decode_change(&missing).is_none());
    let twice = dict(vec![("AddedItem", plist_item("/a", 3)), ("added_item", plist_item("/a", 3))]);
    assert!(decode_change(&twice).is_none());
    assert!(decode_item(&plist_item("/a", -1)).is_none());
    assert!(decode_item(&dict(vec![("Path", s("/a")), ("Size", PlistValue::Integer(1)), ("Extra", s(""))])).is_none());
    assert!(decode_item(&dict(vec![("path", s("/a")), ("Size", PlistValue::Integer(1))])).is_none());
}

fn document(changes: Vec<PlistValue>) -> PlistValue {
    dict(vec![
        ("Changes", PlistValue::Array(changes)),
        ("Totals", dict(vec![
            ("AddedSize", PlistValue::Integer(3)),
            ("ChangedSize", PlistValue::Integer(0)),
            ("RemovedSize", PlistValue::Integer(1)),
        ])),
    ])
}

#[test]
fn documents_decode_with_their_totals() {
    let doc = document(vec![
        dict(vec![("AddedItem", plist_item("/a", 3))]),
        dict(vec![("RemovedItem", plist_item("/b", 1))]),
    ]);
    let c = parse_xml(doc).unwrap();
    assert_eq!(c.changes.len(), 2);
    assert_eq!(c.totals.added_size, 3);
    assert_eq!(c.totals.removed_size, 1);
}

#[test]
fn the_first_unknown_record_is_reported() {
    let doc = document(vec![
        dict(vec![("AddedItem", plist_item("/a", 3))]),
        dict(vec![("Strange", s("x"))]),
        dict(vec![("Other", s("y"))]),
    ]);
    match parse_xml(doc) {
        Err(Error::UnknownChangeShape(PlistValue::Dictionary(d))) => assert_eq!(d[0].0, "Strange"),
        _ => panic!("expected an unknown change"),
    }
}

#[test]
fn malformed_documents_are_returned() {
    let doc = dict(vec![("Changes", PlistValue::Array(vec![]))]);
    assert!(matches!(parse_xml(doc), Err(Error::Decode(PlistValue::Dictionary(d))) if d.len() == 1));
    assert!(matches!(parse_xml(s("x")), Err(Error::Decode(PlistValue::String(_)))));
}
