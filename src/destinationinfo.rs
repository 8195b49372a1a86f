use vstd::prelude::*;
use crate::decode::{
    as_text, decode_text, field, find_field, has_name, name_list, name_one, names, record,
    record_entries, push_name,
};
use crate::listbackups::Destination;
use crate::str_map::StrMap;
use crate::text::{starts_with, strip_prefix_text};
use crate::value::PlistValue;

verus! {

/// A destination as the destination-information command describes it.
#[derive(Debug)]
pub struct DestinationXml {
    pub kind: String,
    pub url: Option<String>,
    pub name: String,
    pub id: String,
    pub last_destination: Option<usize>,
    pub mount_point: Option<String>,
}

/// The output of the destination-information command.
#[derive(Debug)]
pub struct DestinationInfoXml {
    pub destinations: Vec<DestinationXml>,
}

/// A mounted destination, as it is offered for selection.
#[derive(Debug)]
pub struct DestinationDetail {
    pub id: String,
    pub mount_point: String,
    /// The mount point below `/Volumes/`, or the whole mount point.
    pub mount_point_name: String,
}

/// No key of `d` is among `ns`.
pub open spec fn absent(d: Seq<(String, PlistValue)>, ns: Seq<Seq<char>>) -> bool {
    forall|j: int| 0 <= j < d.len() ==> !ns.contains(#[trigger] d[j].0@)
}

/// An optional field: `Some(None)` where no key of `d` is among `ns`, the one
/// value where exactly one is, and `None` where several are.
pub open spec fn optional_field(d: Seq<(String, PlistValue)>, ns: Seq<Seq<char>>) -> Option<Option<PlistValue>> {
    if absent(d, ns) {
        Some(None)
    } else {
        match field(d, ns) {
            Some(v) => Some(Some(v)),
            None => None,
        }
    }
}

pub open spec fn as_usize(v: PlistValue) -> Option<usize> {
    match v {
        PlistValue::Integer(n) => if 0 <= n <= usize::MAX {
            Some(n as usize)
        } else {
            None
        },
        _ => None,
    }
}

/// A destination record, as plain values.
pub type DestinationView = (Seq<char>, Option<Seq<char>>, Seq<char>, Seq<char>, Option<usize>, Option<Seq<char>>);

pub open spec fn destination_view(d: DestinationXml) -> DestinationView {
    (
        d.kind@,
        match d.url { Some(u) => Some(u@), None => None },
        d.name@,
        d.id@,
        d.last_destination,
        match d.mount_point { Some(m) => Some(m@), None => None },
    )
}

pub open spec fn optional_text(f: Option<Option<PlistValue>>) -> Option<Option<Seq<char>>> {
    match f {
        Some(None) => Some(None),
        Some(Some(v)) => match as_text(v) {
            Some(t) => Some(Some(t)),
            None => None,
        },
        None => None,
    }
}

pub open spec fn optional_usize(f: Option<Option<PlistValue>>) -> Option<Option<usize>> {
    match f {
        Some(None) => Some(None),
        Some(Some(v)) => match as_usize(v) {
            Some(n) => Some(Some(n)),
            None => None,
        },
        None => None,
    }
}

pub open spec fn kind_names() -> Seq<Seq<char>> { seq!["kind"@, "Kind"@] }
pub open spec fn url_names() -> Seq<Seq<char>> { seq!["url"@, "URL"@] }
pub open spec fn name_names() -> Seq<Seq<char>> { seq!["name"@, "Name"@] }
pub open spec fn id_names() -> Seq<Seq<char>> { seq!["id"@, "ID"@] }
pub open spec fn last_names() -> Seq<Seq<char>> { seq!["last_destination"@, "LastDestination"@] }
pub open spec fn mount_names() -> Seq<Seq<char>> { seq!["mount_point"@, "MountPoint"@] }

/// A destination record: the kind, name and ID (strings) and, where present,
/// the URL and mount point (strings) and the last-destination marker (an
/// unsigned integer), each under its name or its alias, and no other key.
pub open spec fn destination_of(v: PlistValue) -> Option<DestinationView> {
    match record(v, kind_names() + url_names() + name_names() + id_names() + last_names() + mount_names()) {
        Some(d) => match (
            field(d, kind_names()),
            optional_text(optional_field(d, url_names())),
            field(d, name_names()),
            field(d, id_names()),
            optional_usize(optional_field(d, last_names())),
            optional_text(optional_field(d, mount_names())),
        ) {
            (Some(k), Some(u), Some(n), Some(i), Some(l), Some(m)) => match (as_text(k), as_text(n), as_text(i)) {
                (Some(k), Some(n), Some(i)) => Some((k, u, n, i, l, m)),
                _ => None,
            },
            _ => None,
        },
        None => None,
    }
}

/// Whether some key of `d` is among `ns`.
fn any_named(d: &Vec<(String, PlistValue)>, ns: &Vec<String>) -> (r: bool)
    ensures
        r == !absent(d@, names(ns@)),
{
    let mut i: usize = 0;
    while i < d.len()
        invariant
            i <= d@.len(),
            forall|j: int| 0 <= j < i ==> !names(ns@).contains(#[trigger] d@[j].0@),
        decreases d@.len() - i,
    {
        if has_name(ns, &d[i].0) {
            return true;
        }
        i = i + 1;
    }
    false
}

/// The value of an optional field.
fn find_optional(d: &Vec<(String, PlistValue)>, ns: &Vec<String>) -> (r: Option<Option<usize>>)
    ensures
        match r {
            Some(None) => optional_field(d@, names(ns@)) == Some(None::<PlistValue>),
            Some(Some(i)) => i < d@.len() && optional_field(d@, names(ns@)) == Some(Some(d@[i as int].1)),
            None => optional_field(d@, names(ns@)) is None,
        },
{
    if !any_named(d, ns) {
        return Some(None);
    }
    match find_field(d, ns) {
        Some(i) => Some(Some(i)),
        None => None,
    }
}

fn decode_optional_text(d: &Vec<(String, PlistValue)>, ns: &Vec<String>) -> (r: Option<Option<String>>)
    ensures
        match r {
            Some(None) => optional_text(optional_field(d@, names(ns@))) == Some(None::<Seq<char>>),
            Some(Some(t)) => optional_text(optional_field(d@, names(ns@))) == Some(Some(t@)),
            None => optional_text(optional_field(d@, names(ns@))) is None,
        },
{
    match find_optional(d, ns) {
        Some(None) => Some(None),
        Some(Some(i)) => match decode_text(&d[i].1) {
            Some(t) => Some(Some(t)),
            None => None,
        },
        None => None,
    }
}

fn decode_optional_usize(d: &Vec<(String, PlistValue)>, ns: &Vec<String>) -> (r: Option<Option<usize>>)
    ensures
        match r {
            Some(n) => optional_usize(optional_field(d@, names(ns@))) == Some(n),
            None => optional_usize(optional_field(d@, names(ns@))) is None,
        },
{
    match find_optional(d, ns) {
        Some(None) => Some(None),
        Some(Some(i)) => match &d[i].1 {
            PlistValue::Integer(n) => if 0 <= *n && *n <= usize::MAX as i128 {
                Some(Some(*n as usize))
            } else {
                None
            },
            _ => None,
        },
        None => None,
    }
}

/// Decodes a destination record.
pub fn decode_destination(v: &PlistValue) -> (r: Option<DestinationXml>)
    ensures
        match r {
            Some(d) => destination_of(*v) == Some(destination_view(d)),
            None => destination_of(*v) is None,
        },
{
    let fk = name_list("kind", "Kind");
    let fu = name_list("url", "URL");
    let fnm = name_list("name", "Name");
    let fi = name_list("id", "ID");
    let fl = name_list("last_destination", "LastDestination");
    let fm = name_list("mount_point", "MountPoint");
    let mut known = name_list("kind", "Kind");
    push_name(&mut known, "url");
    push_name(&mut known, "URL");
    push_name(&mut known, "name");
    push_name(&mut known, "Name");
    push_name(&mut known, "id");
    push_name(&mut known, "ID");
    push_name(&mut known, "last_destination");
    push_name(&mut known, "LastDestination");
    push_name(&mut known, "mount_point");
    push_name(&mut known, "MountPoint");
    assert(names(known@) =~= kind_names() + url_names() + name_names() + id_names() + last_names() + mount_names());
    let d = match record_entries(v, &known) {
        Some(d) => d,
        None => {
            return None;
        },
    };
    let (ik, inm, ii) = match (find_field(d, &fk), find_field(d, &fnm), find_field(d, &fi)) {
        (Some(a), Some(b), Some(c)) => (a, b, c),
        _ => {
            return None;
        },
    };
    let url = match decode_optional_text(d, &fu) {
        Some(u) => u,
        None => {
            return None;
        },
    };
    let last_destination = match decode_optional_usize(d, &fl) {
        Some(l) => l,
        None => {
            return None;
        },
    };
    let mount_point = match decode_optional_text(d, &fm) {
        Some(m) => m,
        None => {
            return None;
        },
    };
    match (decode_text(&d[ik].1), decode_text(&d[inm].1), decode_text(&d[ii].1)) {
        (Some(kind), Some(name), Some(id)) => Some(
            DestinationXml { kind, url, name, id, last_destination, mount_point },
        ),
        _ => None,
    }
}

/// The destination records of the destination-information document: a
/// dictionary whose one key is `Destinations`, an array of destination records.
pub open spec fn destination_records(v: PlistValue) -> Option<Seq<PlistValue>> {
    match record(v, seq!["Destinations"@]) {
        Some(d) => match field(d, seq!["Destinations"@]) {
            Some(PlistValue::Array(xs)) => Some(xs@),
            _ => None,
        },
        None => None,
    }
}

/// Decodes the destination-information document; `None` where it or one of
/// its records does not have the expected structure.
pub fn decode_destination_info(v: &PlistValue) -> (r: Option<DestinationInfoXml>)
    ensures
        match r {
            Some(info) => destination_records(*v) matches Some(xs) && info.destinations@.len() == xs.len()
                && forall|i: int| 0 <= i < xs.len() ==> destination_of(#[trigger] xs[i]) == Some(
                destination_view(info.destinations@[i]),
            ),
            None => match destination_records(*v) {
                Some(xs) => exists|i: int| 0 <= i < xs.len() && destination_of(#[trigger] xs[i]) is None,
                None => true,
            },
        },
{
    let f = name_one("Destinations");
    let d = match record_entries(v, &f) {
        Some(d) => d,
        None => {
            return None;
        },
    };
    let i = match find_field(d, &f) {
        Some(i) => i,
        None => {
            return None;
        },
    };
    let xs = match &d[i].1 {
        PlistValue::Array(xs) => xs,
        _ => {
            return None;
        },
    };
    let mut out: Vec<DestinationXml> = Vec::new();
    let mut k: usize = 0;
    while k < xs.len()
        invariant
            k <= xs@.len(),
            destination_records(*v) == Some(xs@),
            out@.len() == k,
            forall|j: int| 0 <= j < k ==> destination_of(#[trigger] xs@[j]) == Some(destination_view(out@[j])),
        decreases xs@.len() - k,
    {
        match decode_destination(&xs[k]) {
            Some(dx) => {
                out.push(dx);
            },
            None => {
                return None;
            },
        }
        k = k + 1;
    }
    Some(DestinationInfoXml { destinations: out })
}

/// The name of a mount point: what follows `/Volumes/`, or the whole mount point.
pub open spec fn mount_point_name(m: Seq<char>) -> Seq<char> {
    if starts_with(m, "/Volumes/"@) {
        m.subrange("/Volumes/"@.len() as int, m.len() as int)
    } else {
        m
    }
}

/// The mounted destinations among `ds`, in order: ID, mount point and mount point name.
pub open spec fn mounted(ds: Seq<DestinationView>) -> Seq<(Seq<char>, Seq<char>, Seq<char>)>
    decreases ds.len(),
{
    if ds.len() == 0 {
        seq![]
    } else {
        let last = ds.last();
        match last.5 {
            Some(m) => mounted(ds.drop_last()).push((last.3, m, mount_point_name(m))),
            None => mounted(ds.drop_last()),
        }
    }
}

pub open spec fn detail_view(d: DestinationDetail) -> (Seq<char>, Seq<char>, Seq<char>) {
    (d.id@, d.mount_point@, d.mount_point_name@)
}

/// The mount point of each mounted destination, by ID; a later record for the
/// same ID wins.
pub open spec fn mount_points(ds: Seq<DestinationView>) -> Map<Seq<char>, Seq<char>>
    decreases ds.len(),
{
    if ds.len() == 0 {
        Map::empty()
    } else {
        let last = ds.last();
        match last.5 {
            Some(m) => mount_points(ds.drop_last()).insert(last.3, m),
            None => mount_points(ds.drop_last()),
        }
    }
}

pub open spec fn views(ds: Seq<DestinationXml>) -> Seq<DestinationView> {
    ds.map_values(|d: DestinationXml| destination_view(d))
}

/// The mounted destinations, as they are offered for selection.
pub fn destination_details(info: &DestinationInfoXml) -> (r: Vec<DestinationDetail>)
    ensures
        r@.map_values(|d: DestinationDetail| detail_view(d)) == mounted(views(info.destinations@)),
{
    let ghost vs = views(info.destinations@);
    let mut r: Vec<DestinationDetail> = Vec::new();
    let mut i: usize = 0;
    assert(vs.subrange(0, 0) =~= Seq::<DestinationView>::empty());
    while i < info.destinations.len()
        invariant
            i <= info.destinations@.len(),
            vs == views(info.destinations@),
            r@.map_values(|d: DestinationDetail| detail_view(d)) == mounted(vs.subrange(0, i as int)),
        decreases info.destinations@.len() - i,
    {
        let dx = &info.destinations[i];
        assert(vs.subrange(0, i + 1).drop_last() =~= vs.subrange(0, i as int));
        assert(vs.subrange(0, i + 1).last() == destination_view(*dx));
        match &dx.mount_point {
            Some(m) => {
                let name = match strip_prefix_text(m.as_str(), "/Volumes/") {
                    Some(rest) => rest,
                    None => m.clone(),
                };
                let ghost before = r@.map_values(|d: DestinationDetail| detail_view(d));
                r.push(DestinationDetail { id: dx.id.clone(), mount_point: m.clone(), mount_point_name: name });
                assert(r@.map_values(|d: DestinationDetail| detail_view(d)) =~= before.push(
                    (dx.id@, m@, mount_point_name(m@)),
                ));
            },
            None => {},
        }
        i = i + 1;
    }
    assert(vs.subrange(0, i as int) =~= vs);
    r
}

/// The mounted destinations by ID, none of whose backups are listed yet.
pub fn destinations_map(info: &DestinationInfoXml) -> (r: StrMap<Destination>)
    ensures
        r.wf(),
        r@.dom() == mount_points(views(info.destinations@)).dom(),
        forall|id: Seq<char>| #[trigger] r@.contains_key(id) ==> r@[id].backups is None
            && r@[id].mount_point@ == mount_points(views(info.destinations@))[id],
{
    let ghost vs = views(info.destinations@);
    let mut r: StrMap<Destination> = StrMap::new();
    let mut i: usize = 0;
    assert(vs.subrange(0, 0) =~= Seq::<DestinationView>::empty());
    while i < info.destinations.len()
        invariant
            i <= info.destinations@.len(),
            vs == views(info.destinations@),
            r.wf(),
            r@.dom() == mount_points(vs.subrange(0, i as int)).dom(),
            forall|id: Seq<char>| #[trigger] r@.contains_key(id) ==> r@[id].backups is None
                && r@[id].mount_point@ == mount_points(vs.subrange(0, i as int))[id],
        decreases info.destinations@.len() - i,
    {
        let dx = &info.destinations[i];
        assert(vs.subrange(0, i + 1).drop_last() =~= vs.subrange(0, i as int));
        assert(vs.subrange(0, i + 1).last() == destination_view(*dx));
        match &dx.mount_point {
            Some(m) => {
                r.insert(dx.id.clone(), Destination { backups: None, mount_point: m.clone() });
                assert(r@.dom() =~= mount_points(vs.subrange(0, i + 1)).dom());
            },
            None => {},
        }
        i = i + 1;
    }
    assert(vs.subrange(0, i as int) =~= vs);
    r
}

} // verus!
