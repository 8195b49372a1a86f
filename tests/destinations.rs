use time_machine_inspector::destinationinfo::{decode_destination_info, destination_details, destinations_map};
use time_machine_inspector::text::{contains_text_ignoring_case, trim_text};
use time_machine_inspector::value::PlistValue;

fn s(x: &str) -> PlistValue {
    PlistValue::String(x.to_string())
}

fn dict(entries: Vec<(&str, PlistValue)>) -> PlistValue {
    PlistValue::Dictionary(entries.into_iter().map(|(k, v)| (k.to_string(), v)).collect())
}

#[test]
fn mounted_destinations_are_offered() {
    let doc = dict(vec![(
        "Destinations",
        PlistValue::Array(vec![
            dict(vec![
                ("Kind", s("Local")),
                ("Name", s("Backup Disk")),
                ("ID", s("ID-1")),
                ("MountPoint", s("/Volumes/Backup Disk")),
                ("LastDestination", PlistValue::Integer(1)),
            ]),
            dict(vec![("Kind", s("Network")), ("Name", s("NAS")), ("ID", s("ID-2")), ("URL", s("smb://nas"))]),
            dict(vec![("Kind", s("Local")), ("Name", s("Other")), ("ID", s("ID-3")), ("MountPoint", s("/mnt/x"))]),
        ]),
    )]);
    let info = decode_destination_info(&doc).unwrap();
    assert_eq!(info.destinations.len(), 3);
    assert_eq!(info.destinations[0].last_destination, Some(1));
    assert_eq!(info.destinations[1].url.as_deref(), Some("smb://nas"));
    let details = destination_details(&info);
    assert_eq!(details.len(), 2);
    assert_eq!(details[0].id, "ID-1");
    assert_eq!(details[0].mount_point_name, "Backup Disk");
    assert_eq!(details[1].mount_point_name, "/mnt/x");
    let map = destinations_map(&info);
    assert_eq!(map.len(), 2);
    assert_eq!(map.get("ID-1").unwrap().mount_point, "/Volumes/Backup Disk");
    assert!(map.get("ID-1").unwrap().backups.is_none());
    assert!(map.get("ID-2").is_none());
}

#[test]
fn unknown_destination_fields_are_rejected() {
    let doc = dict(vec![(
        "Destinations",
        PlistValue::Array(vec![dict(vec![
            ("Kind", s("Local")),
            ("Name", s("n")),
            ("ID", s("i")),
            ("Colour", s("blue")),
        ])]),
    )]);
    assert!(decode_destination_info(&doc).is_none());
    assert!(decode_destination_info(&dict(vec![])).is_none());
}

#[test]
fn text_helpers() {
    assert_eq!(trim_text("\u{3000} a b \n"), "a b");
    assert!(contains_text_ignoring_case("xx NO Machine directory", "no machine"));
    assert!(!contains_text_ignoring_case("no machin", "no machine"));
}
