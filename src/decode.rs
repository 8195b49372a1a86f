use vstd::prelude::*;
use crate::compare::{Add, Change, Comparison, Delete, Item, Totals, Update};
use crate::error::Error;
use crate::value::PlistValue;

verus! {

/// The views of a list of names.
pub open spec fn names(ns: Seq<String>) -> Seq<Seq<char>> {
    ns.map_values(|s: String| s@)
}

/// Entry `i` of `d` is the one entry whose key is among `ns`.
pub open spec fn unique_at(d: Seq<(String, PlistValue)>, ns: Seq<Seq<char>>, i: int) -> bool {
    &&& 0 <= i < d.len()
    &&& ns.contains(d[i].0@)
    &&& forall|j: int| 0 <= j < d.len() && ns.contains(#[trigger] d[j].0@) ==> j == i
}

/// The value of the one entry of `d` whose key is among `ns`: none where no
/// entry or more than one has such a key.
pub open spec fn field(d: Seq<(String, PlistValue)>, ns: Seq<Seq<char>>) -> Option<PlistValue> {
    if exists|i: int| unique_at(d, ns, i) {
        Some(d[choose|i: int| unique_at(d, ns, i)].1)
    } else {
        None
    }
}

/// Every key of `d` is among `ns`.
pub open spec fn only_fields(d: Seq<(String, PlistValue)>, ns: Seq<Seq<char>>) -> bool {
    forall|j: int| 0 <= j < d.len() ==> ns.contains(#[trigger] d[j].0@)
}

/// The entries of `v`, where it is a dictionary with no key outside `known`.
pub open spec fn record(v: PlistValue, known: Seq<Seq<char>>) -> Option<Seq<(String, PlistValue)>> {
    match v {
        PlistValue::Dictionary(d) => if only_fields(d@, known) {
            Some(d@)
        } else {
            None
        },
        _ => None,
    }
}

pub open spec fn as_u64(v: PlistValue) -> Option<u64> {
    match v {
        PlistValue::Integer(n) => if 0 <= n <= u64::MAX {
            Some(n as u64)
        } else {
            None
        },
        _ => None,
    }
}

pub open spec fn as_text(v: PlistValue) -> Option<Seq<char>> {
    match v {
        PlistValue::String(s) => Some(s@),
        _ => None,
    }
}

/// Every value of `xs` is a string.
pub open spec fn all_text(xs: Seq<PlistValue>) -> bool {
    forall|i: int| 0 <= i < xs.len() ==> #[trigger] xs[i] is String
}

pub open spec fn as_texts(v: PlistValue) -> Option<Seq<Seq<char>>> {
    match v {
        PlistValue::Array(xs) => if all_text(xs@) {
            Some(xs@.map_values(|x: PlistValue| x->String_0@))
        } else {
            None
        },
        _ => None,
    }
}

pub(crate) fn push_name(ns: &mut Vec<String>, n: &str)
    ensures
        names(final(ns)@) == names(old(ns)@).push(n@),
{
    ns.push(String::from_str(n));
    assert(names(ns@) =~= names(old(ns)@).push(n@));
}

/// The list of the given names.
pub(crate) fn name_list(a: &str, b: &str) -> (r: Vec<String>)
    ensures
        names(r@) == seq![a@, b@],
{
    let mut r: Vec<String> = Vec::new();
    push_name(&mut r, a);
    push_name(&mut r, b);
    assert(names(r@) =~= seq![a@, b@]);
    r
}

pub(crate) fn has_name(ns: &Vec<String>, k: &String) -> (r: bool)
    ensures
        r == names(ns@).contains(k@),
{
    let mut i: usize = 0;
    while i < ns.len()
        invariant
            i <= ns@.len(),
            forall|j: int| 0 <= j < i ==> ns@[j]@ != k@,
        decreases ns@.len() - i,
    {
        if ns[i] == *k {
            assert(names(ns@)[i as int] == k@);
            return true;
        }
        i = i + 1;
    }
    assert forall|j: int| 0 <= j < names(ns@).len() implies names(ns@)[j] != k@ by {
        assert(names(ns@)[j] == ns@[j]@);
    }
    false
}

/// Whether every key of `d` is among `ns`.
pub(crate) fn keys_known(d: &Vec<(String, PlistValue)>, ns: &Vec<String>) -> (r: bool)
    ensures
        r == only_fields(d@, names(ns@)),
{
    let mut i: usize = 0;
    while i < d.len()
        invariant
            i <= d@.len(),
            forall|j: int| 0 <= j < i ==> names(ns@).contains(#[trigger] d@[j].0@),
        decreases d@.len() - i,
    {
        if !has_name(ns, &d[i].0) {
            return false;
        }
        i = i + 1;
    }
    true
}

/// The position of the one entry of `d` whose key is among `ns`.
pub(crate) fn find_field(d: &Vec<(String, PlistValue)>, ns: &Vec<String>) -> (r: Option<usize>)
    ensures
        match r {
            Some(i) => unique_at(d@, names(ns@), i as int) && field(d@, names(ns@)) == Some(d@[i as int].1),
            None => field(d@, names(ns@)) is None,
        },
{
    let ghost n = names(ns@);
    let mut found: Option<usize> = None;
    let mut i: usize = 0;
    while i < d.len()
        invariant
            i <= d@.len(),
            n == names(ns@),
            match found {
                Some(f) => f < i && n.contains(d@[f as int].0@) && forall|j: int|
                    0 <= j < i && n.contains(#[trigger] d@[j].0@) ==> j == f,
                None => forall|j: int| 0 <= j < i ==> !n.contains(#[trigger] d@[j].0@),
            },
        decreases d@.len() - i,
    {
        if has_name(ns, &d[i].0) {
            match found {
                Some(f) => {
                    assert forall|k: int| !unique_at(d@, n, k) by {
                        if unique_at(d@, n, k) {
                            assert(n.contains(d@[f as int].0@));
                            assert(n.contains(d@[i as int].0@));
                        }
                    }
                    return None;
                },
                None => {
                    found = Some(i);
                },
            }
        }
        i = i + 1;
    }
    match found {
        Some(f) => {
            assert(unique_at(d@, n, f as int));
            assert forall|k: int| unique_at(d@, n, k) implies k == f by {}
            Some(f)
        },
        None => {
            assert forall|k: int| !unique_at(d@, n, k) by {
                if 0 <= k < d@.len() {
                    assert(!n.contains(d@[k].0@));
                }
            }
            None
        },
    }
}

pub(crate) fn decode_u64(v: &PlistValue) -> (r: Option<u64>)
    ensures
        r == as_u64(*v),
{
    match v {
        PlistValue::Integer(n) => if 0 <= *n && *n <= u64::MAX as i128 {
            Some(*n as u64)
        } else {
            None
        },
        _ => None,
    }
}

pub(crate) fn decode_text(v: &PlistValue) -> (r: Option<String>)
    ensures
        match r {
            Some(s) => as_text(*v) == Some(s@),
            None => as_text(*v) is None,
        },
{
    match v {
        PlistValue::String(s) => Some(s.clone()),
        _ => None,
    }
}

pub(crate) fn decode_texts(v: &PlistValue) -> (r: Option<Vec<String>>)
    ensures
        match r {
            Some(ss) => as_texts(*v) == Some(names(ss@)),
            None => as_texts(*v) is None,
        },
{
    match v {
        PlistValue::Array(xs) => {
            let mut out: Vec<String> = Vec::new();
            let mut i: usize = 0;
            while i < xs.len()
                invariant
                    i <= xs@.len(),
                    out@.len() == i,
                    match *v {
                        PlistValue::Array(ys) => ys@ == xs@,
                        _ => false,
                    },
                    forall|j: int| 0 <= j < i ==> #[trigger] xs@[j] is String && out@[j]@ == xs@[j]->String_0@,
                decreases xs@.len() - i,
            {
                match &xs[i] {
                    PlistValue::String(s) => {
                        out.push(s.clone());
                    },
                    _ => {
                        assert(!(xs@[i as int] is String));
                        assert(!all_text(xs@));
                        return None;
                    },
                }
                i = i + 1;
            }
            assert(names(out@) =~= xs@.map_values(|x: PlistValue| x->String_0@));
            Some(out)
        },
        _ => None,
    }
}

/// What a change says, as plain values.
pub enum ChangeView {
    Add(Seq<char>, u64),
    Update(Seq<Seq<char>>, (Seq<char>, u64), (Seq<char>, u64)),
    Delete(Seq<char>, u64),
}

pub open spec fn item_view(it: Item) -> (Seq<char>, u64) {
    (it.path@, it.size)
}

pub open spec fn change_view(c: Change) -> ChangeView {
    match c {
        Change::Add(a) => ChangeView::Add(a.added_item.path@, a.added_item.size),
        Change::Update(u) => ChangeView::Update(
            names(u.differences@),
            item_view(u.newer_item),
            item_view(u.older_item),
        ),
        Change::Delete(d) => ChangeView::Delete(d.removed_item.path@, d.removed_item.size),
    }
}

/// An item record: exactly the keys `Path` (a string) and `Size` (an unsigned integer).
pub open spec fn item_of(v: PlistValue) -> Option<(Seq<char>, u64)> {
    match record(v, seq!["Path"@, "Size"@]) {
        Some(d) => match (field(d, seq!["Path"@]), field(d, seq!["Size"@])) {
            (Some(p), Some(n)) => match (as_text(p), as_u64(n)) {
                (Some(p), Some(n)) => Some((p, n)),
                _ => None,
            },
            _ => None,
        },
        None => None,
    }
}

/// An addition record: exactly one key, `added_item` or `AddedItem`, holding an item.
pub open spec fn add_of(v: PlistValue) -> Option<ChangeView> {
    let f = seq!["added_item"@, "AddedItem"@];
    match record(v, f) {
        Some(d) => match field(d, f) {
            Some(x) => match item_of(x) {
                Some(it) => Some(ChangeView::Add(it.0, it.1)),
                None => None,
            },
            None => None,
        },
        None => None,
    }
}

/// An update record: exactly the three keys for the differences (strings), the
/// newer item and the older item, each under its name or its capitalised alias.
pub open spec fn update_of(v: PlistValue) -> Option<ChangeView> {
    let fd = seq!["differences"@, "Differences"@];
    let fnew = seq!["newer_item"@, "NewerItem"@];
    let fold = seq!["older_item"@, "OlderItem"@];
    match record(v, fd + fnew + fold) {
        Some(d) => match (field(d, fd), field(d, fnew), field(d, fold)) {
            (Some(x), Some(y), Some(z)) => match (as_texts(x), item_of(y), item_of(z)) {
                (Some(ds), Some(n), Some(o)) => Some(ChangeView::Update(ds, n, o)),
                _ => None,
            },
            _ => None,
        },
        None => None,
    }
}

/// A deletion record: exactly one key, `removed_item` or `RemovedItem`, holding an item.
pub open spec fn delete_of(v: PlistValue) -> Option<ChangeView> {
    let f = seq!["removed_item"@, "RemovedItem"@];
    match record(v, f) {
        Some(d) => match field(d, f) {
            Some(x) => match item_of(x) {
                Some(it) => Some(ChangeView::Delete(it.0, it.1)),
                None => None,
            },
            None => None,
        },
        None => None,
    }
}

/// A change record is tried as an addition, then as an update, then as a deletion.
pub open spec fn change_of(v: PlistValue) -> Option<ChangeView> {
    if add_of(v) is Some {
        add_of(v)
    } else if update_of(v) is Some {
        update_of(v)
    } else {
        delete_of(v)
    }
}

pub(crate) fn name_one(a: &str) -> (r: Vec<String>)
    ensures
        names(r@) == seq![a@],
{
    let mut r: Vec<String> = Vec::new();
    push_name(&mut r, a);
    assert(names(r@) =~= seq![a@]);
    r
}

/// The entries of `v` where it is a dictionary whose keys are all among `known`.
pub(crate) fn record_entries<'a>(v: &'a PlistValue, known: &Vec<String>) -> (r: Option<&'a Vec<(String, PlistValue)>>)
    ensures
        match r {
            Some(d) => record(*v, names(known@)) == Some(d@),
            None => record(*v, names(known@)) is None,
        },
{
    match v {
        PlistValue::Dictionary(d) => if keys_known(d, known) {
            Some(d)
        } else {
            None
        },
        _ => None,
    }
}

/// Decodes an item record.
pub fn decode_item(v: &PlistValue) -> (r: Option<Item>)
    ensures
        match r {
            Some(it) => item_of(*v) == Some(item_view(it)),
            None => item_of(*v) is None,
        },
{
    let known = name_list("Path", "Size");
    let d = match record_entries(v, &known) {
        Some(d) => d,
        None => {
            return None;
        },
    };
    let ip = match find_field(d, &name_one("Path")) {
        Some(i) => i,
        None => {
            return None;
        },
    };
    let is = match find_field(d, &name_one("Size")) {
        Some(i) => i,
        None => {
            return None;
        },
    };
    let path = match decode_text(&d[ip].1) {
        Some(p) => p,
        None => {
            return None;
        },
    };
    let size = match decode_u64(&d[is].1) {
        Some(n) => n,
        None => {
            return None;
        },
    };
    Some(Item { path, size })
}

/// The item held by a record with the single key `a` or `b`.
fn decode_single(v: &PlistValue, a: &str, b: &str) -> (r: Option<Item>)
    ensures
        ({
            let f = seq![a@, b@];
            let expected = match record(*v, f) {
                Some(d) => match field(d, f) {
                    Some(x) => item_of(x),
                    None => None,
                },
                None => None,
            };
            match r {
                Some(it) => expected == Some(item_view(it)),
                None => expected is None,
            }
        }),
{
    let f = name_list(a, b);
    let d = match record_entries(v, &f) {
        Some(d) => d,
        None => {
            return None;
        },
    };
    match find_field(d, &f) {
        Some(i) => decode_item(&d[i].1),
        None => None,
    }
}

fn decode_update(v: &PlistValue) -> (r: Option<Update>)
    ensures
        match r {
            Some(u) => update_of(*v) == Some(change_view(Change::Update(u))),
            None => update_of(*v) is None,
        },
{
    let fd = name_list("differences", "Differences");
    let fnew = name_list("newer_item", "NewerItem");
    let fold = name_list("older_item", "OlderItem");
    let mut known = name_list("differences", "Differences");
    push_name(&mut known, "newer_item");
    push_name(&mut known, "NewerItem");
    push_name(&mut known, "older_item");
    push_name(&mut known, "OlderItem");
    assert(names(known@) =~= names(fd@) + names(fnew@) + names(fold@));
    let d = match record_entries(v, &known) {
        Some(d) => d,
        None => {
            return None;
        },
    };
    let (id, inew, iold) = match (find_field(d, &fd), find_field(d, &fnew), find_field(d, &fold)) {
        (Some(x), Some(y), Some(z)) => (x, y, z),
        _ => {
            return None;
        },
    };
    let differences = match decode_texts(&d[id].1) {
        Some(ds) => ds,
        None => {
            return None;
        },
    };
    let newer_item = match decode_item(&d[inew].1) {
        Some(it) => it,
        None => {
            return None;
        },
    };
    let older_item = match decode_item(&d[iold].1) {
        Some(it) => it,
        None => {
            return None;
        },
    };
    Some(Update { differences, newer_item, older_item })
}

/// Decodes a change record, trying an addition, an update and a deletion in turn.
pub fn decode_change(v: &PlistValue) -> (r: Option<Change>)
    ensures
        match r {
            Some(c) => change_of(*v) == Some(change_view(c)),
            None => change_of(*v) is None,
        },
{
    if let Some(it) = decode_single(v, "added_item", "AddedItem") {
        return Some(Change::Add(Add { added_item: it }));
    }
    if let Some(u) = decode_update(v) {
        return Some(Change::Update(u));
    }
    match decode_single(v, "removed_item", "RemovedItem") {
        Some(it) => Some(Change::Delete(Delete { removed_item: it })),
        None => None,
    }
}

/// A totals record: exactly the three sizes, each under its name or its capitalised alias.
pub open spec fn totals_of(v: PlistValue) -> Option<(u64, u64, u64)> {
    let fa = seq!["added_size"@, "AddedSize"@];
    let fc = seq!["changed_size"@, "ChangedSize"@];
    let fr = seq!["removed_size"@, "RemovedSize"@];
    match record(v, fa + fc + fr) {
        Some(d) => match (field(d, fa), field(d, fc), field(d, fr)) {
            (Some(x), Some(y), Some(z)) => match (as_u64(x), as_u64(y), as_u64(z)) {
                (Some(a), Some(c), Some(r)) => Some((a, c, r)),
                _ => None,
            },
            _ => None,
        },
        None => None,
    }
}

pub open spec fn totals_view(t: Totals) -> (u64, u64, u64) {
    (t.added_size, t.changed_size, t.removed_size)
}

fn decode_totals(v: &PlistValue) -> (r: Option<Totals>)
    ensures
        match r {
            Some(t) => totals_of(*v) == Some(totals_view(t)),
            None => totals_of(*v) is None,
        },
{
    let fa = name_list("added_size", "AddedSize");
    let fc = name_list("changed_size", "ChangedSize");
    let fr = name_list("removed_size", "RemovedSize");
    let mut known = name_list("added_size", "AddedSize");
    push_name(&mut known, "changed_size");
    push_name(&mut known, "ChangedSize");
    push_name(&mut known, "removed_size");
    push_name(&mut known, "RemovedSize");
    assert(names(known@) =~= names(fa@) + names(fc@) + names(fr@));
    let d = match record_entries(v, &known) {
        Some(d) => d,
        None => {
            return None;
        },
    };
    let (ia, ic, ir) = match (find_field(d, &fa), find_field(d, &fc), find_field(d, &fr)) {
        (Some(x), Some(y), Some(z)) => (x, y, z),
        _ => {
            return None;
        },
    };
    match (decode_u64(&d[ia].1), decode_u64(&d[ic].1), decode_u64(&d[ir].1)) {
        (Some(added_size), Some(changed_size), Some(removed_size)) => Some(
            Totals { added_size, changed_size, removed_size },
        ),
        _ => None,
    }
}

/// A comparison document: a dictionary with exactly the keys `Changes`, an
/// array of change records, and `Totals`, a totals record.
pub open spec fn document_of(v: PlistValue) -> Option<(Seq<PlistValue>, (u64, u64, u64))> {
    let fc = seq!["Changes"@];
    let ft = seq!["Totals"@];
    match record(v, fc + ft) {
        Some(d) => match (field(d, fc), field(d, ft)) {
            (Some(PlistValue::Array(xs)), Some(t)) => match totals_of(t) {
                Some(t) => Some((xs@, t)),
                None => None,
            },
            _ => None,
        },
        None => None,
    }
}

/// Decodes each change record in turn; on failure, the position of the first
/// record that matches no shape.
fn decode_all(xs: &Vec<PlistValue>) -> (r: Result<Vec<Change>, usize>)
    ensures
        match r {
            Ok(cs) => cs@.len() == xs@.len() && forall|i: int|
                0 <= i < xs@.len() ==> change_of(#[trigger] xs@[i]) == Some(change_view(cs@[i])),
            Err(i) => i < xs@.len() && change_of(xs@[i as int]) is None && forall|j: int|
                0 <= j < i ==> change_of(#[trigger] xs@[j]) is Some,
        },
{
    let mut cs: Vec<Change> = Vec::with_capacity(xs.len());
    let mut i: usize = 0;
    while i < xs.len()
        invariant
            i <= xs@.len(),
            cs@.len() == i,
            forall|j: int| 0 <= j < i ==> change_of(#[trigger] xs@[j]) == Some(change_view(cs@[j])),
        decreases xs@.len() - i,
    {
        match decode_change(&xs[i]) {
            Some(c) => {
                cs.push(c);
            },
            None => {
                return Err(i);
            },
        }
        i = i + 1;
    }
    Ok(cs)
}

/// Moves change record `i` out of the `Changes` entry at position `ic` of a document.
fn take_change(value: PlistValue, ic: usize, i: usize) -> (r: PlistValue)
    requires
        match value {
            PlistValue::Dictionary(d) => ic < d@.len() && match d@[ic as int].1 {
                PlistValue::Array(xs) => i < xs@.len(),
                _ => false,
            },
            _ => false,
        },
    ensures
        match value {
            PlistValue::Dictionary(d) => match d@[ic as int].1 {
                PlistValue::Array(xs) => r == xs@[i as int],
                _ => false,
            },
            _ => false,
        },
{
    match value {
        PlistValue::Dictionary(mut d) => {
            let (_, changes) = d.swap_remove(ic);
            match changes {
                PlistValue::Array(mut xs) => xs.swap_remove(i),
                other => other,
            }
        },
        other => other,
    }
}

/// Decodes a comparison document. A document of the wrong structure is
/// returned in `Decode`; a change record that matches no shape is returned in
/// `UnknownChangeShape`.
pub fn parse_xml(value: PlistValue) -> (r: Result<Comparison, Error>)
    ensures
        match document_of(value) {
            None => match r {
                Err(Error::Decode(w)) => w == value,
                _ => false,
            },
            Some((xs, t)) => match r {
                Ok(c) => {
                    &&& c.changes@.len() == xs.len()
                    &&& forall|i: int|
                        0 <= i < xs.len() ==> change_of(#[trigger] xs[i]) == Some(change_view(c.changes@[i]))
                    &&& totals_view(c.totals) == t
                },
                Err(e) => exists|i: int|
                    0 <= i < xs.len() && change_of(xs[i]) is None && (forall|j: int|
                        0 <= j < i ==> change_of(#[trigger] xs[j]) is Some) && e == Error::UnknownChangeShape(xs[i]),
            },
        },
{
    let fc = name_one("Changes");
    let ft = name_one("Totals");
    let mut top = name_one("Changes");
    push_name(&mut top, "Totals");
    assert(names(top@) =~= names(fc@) + names(ft@));
    let found: Option<(usize, Totals)> = match record_entries(&value, &top) {
        Some(d) => match (find_field(d, &fc), find_field(d, &ft)) {
            (Some(ic), Some(it)) => match (&d[ic].1, decode_totals(&d[it].1)) {
                (PlistValue::Array(_), Some(t)) => Some((ic, t)),
                _ => None,
            },
            _ => None,
        },
        None => None,
    };
    let (ic, totals) = match found {
        Some(f) => f,
        None => {
            return Err(Error::Decode(value));
        },
    };
    let decoded = match &value {
        PlistValue::Dictionary(d) => match &d[ic].1 {
            PlistValue::Array(xs) => decode_all(xs),
            _ => Err(0),
        },
        _ => Err(0),
    };
    match decoded {
        Ok(changes) => Ok(Comparison { changes, totals }),
        Err(i) => Err(Error::UnknownChangeShape(take_change(value, ic, i))),
    }
}

/// A record holding a key of an addition and a key of a deletion is no change
/// record at all.
pub proof fn lemma_mixed_record_rejected(v: PlistValue, i: int, j: int)
    requires
        v matches PlistValue::Dictionary(d) && 0 <= i < d@.len() && 0 <= j < d@.len()
            && seq!["added_item"@, "AddedItem"@].contains(d@[i].0@)
            && seq!["removed_item"@, "RemovedItem"@].contains(d@[j].0@),
    ensures
        change_of(v) is None,
{
    reveal_strlit("added_item");
    reveal_strlit("AddedItem");
    reveal_strlit("removed_item");
    reveal_strlit("RemovedItem");
    reveal_strlit("differences");
    reveal_strlit("Differences");
    reveal_strlit("newer_item");
    reveal_strlit("NewerItem");
    reveal_strlit("older_item");
    reveal_strlit("OlderItem");
    let d = v->Dictionary_0@;
    let a = d[i].0@;
    let r = d[j].0@;
    assert(a.len() == 10 || a.len() == 9);
    assert(r.len() == 12 || r.len() == 11);
    assert(!seq!["added_item"@, "AddedItem"@].contains(r));
    assert(!seq!["removed_item"@, "RemovedItem"@].contains(a));
    assert(a[0] == 'a' || a[0] == 'A');
    let upd = seq!["differences"@, "Differences"@] + seq!["newer_item"@, "NewerItem"@] + seq![
        "older_item"@,
        "OlderItem"@,
    ];
    assert forall|k: int| 0 <= k < upd.len() implies upd[k] != a by {
        assert(upd[k][0] != a[0]);
    }
    assert(!upd.contains(a));
}

/// A record with update keys only, but without one of the three fields of an
/// update, is no change record at all.
pub proof fn lemma_incomplete_update_rejected(v: PlistValue)
    requires
        v matches PlistValue::Dictionary(d) && only_fields(
            d@,
            seq!["differences"@, "Differences"@] + seq!["newer_item"@, "NewerItem"@] + seq![
                "older_item"@,
                "OlderItem"@,
            ],
        ) && (field(d@, seq!["differences"@, "Differences"@]) is None || field(
            d@,
            seq!["newer_item"@, "NewerItem"@],
        ) is None || field(d@, seq!["older_item"@, "OlderItem"@]) is None),
    ensures
        change_of(v) is None,
{
    reveal_strlit("added_item");
    reveal_strlit("AddedItem");
    reveal_strlit("removed_item");
    reveal_strlit("RemovedItem");
    reveal_strlit("differences");
    reveal_strlit("Differences");
    reveal_strlit("newer_item");
    reveal_strlit("NewerItem");
    reveal_strlit("older_item");
    reveal_strlit("OlderItem");
    let d = v->Dictionary_0@;
    let upd = seq!["differences"@, "Differences"@] + seq!["newer_item"@, "NewerItem"@] + seq![
        "older_item"@,
        "OlderItem"@,
    ];
    let fa = seq!["added_item"@, "AddedItem"@];
    let fr = seq!["removed_item"@, "RemovedItem"@];
    if d.len() > 0 {
        let x = d[0].0@;
        assert(upd.contains(x));
        assert(x[0] != 'a' && x[0] != 'A' && x[0] != 'r' && x[0] != 'R') by {
            let k = choose|k: int| 0 <= k < upd.len() && upd[k] == x;
            assert(upd[k][0] == x[0]);
        }
        assert(!fa.contains(x)) by {
            if fa.contains(x) {
                let k = choose|k: int| 0 <= k < fa.len() && fa[k] == x;
                assert(fa[k][0] == x[0]);
            }
        }
        assert(!fr.contains(x)) by {
            if fr.contains(x) {
                let k = choose|k: int| 0 <= k < fr.len() && fr[k] == x;
                assert(fr[k][0] == x[0]);
            }
        }
    } else {
        assert(!exists|k: int| unique_at(d, fa, k));
        assert(!exists|k: int| unique_at(d, fr, k));
    }
}

} // verus!
