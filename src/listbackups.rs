use vstd::prelude::*;
use vstd::utf8::{decode_utf8, valid_utf8};
use crate::cmd::{check_cmd_success, failure_message, parse_output, unreadable_output_message, utf8_text};
use crate::error::Error;
use crate::path::{is_kept_part, kept};
use crate::str_map::StrMap;
use crate::text::{
    contains_ignoring_case, contains_text_ignoring_case, join_slash, join_with_slash, split_on,
    split_text, trim, trim_end_all, trim_end_matches, trim_text,
};

verus! {

/// One backup snapshot of a destination.
#[derive(Clone, Debug)]
pub struct Backup {
    pub path: String,
    /// A display label derived from `path`.
    pub name: String,
}

/// A snapshot name: a date and time written `YYYY-MM-DD-HHMMSS`.
pub const SNAPSHOT_PATTERN: &'static str = "^\\d{4}\\-\\d{2}\\-\\d{2}\\-\\d{6}$";

/// A snapshot name with the extension of a snapshot bundle.
pub const SNAPSHOT_BUNDLE_PATTERN: &'static str = "^\\d{4}\\-\\d{2}\\-\\d{2}\\-\\d{6}\\.backup$";

/// The extension of a snapshot bundle.
pub const BUNDLE_EXTENSION: &'static str = ".backup";

/// Whether the regular expression `pattern` compiles.
pub uninterp spec fn regex_compiles(pattern: Seq<char>) -> bool;

/// Whether the compiled regular expression `pattern` matches somewhere in `text`.
pub uninterp spec fn regex_matches(pattern: Seq<char>, text: Seq<char>) -> bool;

/// Relies on `regex::Regex::new`, which compiles `pattern` or fails depending on
/// the pattern alone, and on `Regex::is_match`, whose answer depends on the
/// pattern and the text alone.
#[verifier::external_body]
fn regex_match(pattern: &str, text: &str) -> (r: Option<bool>)
    ensures
        match r {
            Some(b) => regex_compiles(pattern@) && b == regex_matches(pattern@, text@),
            None => !regex_compiles(pattern@),
        },
{
    match regex::Regex::new(pattern) {
        Ok(re) => Some(re.is_match(text)),
        Err(_) => None,
    }
}

/// `text` matches the regular expression `pattern`, which compiles.
pub open spec fn matches_pattern(pattern: Seq<char>, text: Seq<char>) -> bool {
    regex_compiles(pattern) && regex_matches(pattern, text)
}

/// The components of `path`: `/` where it is absolute, then its non-empty
/// components other than `.`.
pub open spec fn path_parts(path: Seq<char>) -> Seq<Seq<char>> {
    (if path.len() > 0 && path[0] == '/' {
        seq![seq!['/']]
    } else {
        seq![]
    }) + kept(split_on(path, '/'))
}

/// The last component of `path`, or empty.
pub open spec fn last_part(path: Seq<char>) -> Seq<char> {
    let ps = path_parts(path);
    if ps.len() > 0 {
        ps.last()
    } else {
        seq![]
    }
}

/// The display name of a backup at `path`, given whether its last component is
/// a snapshot name and whether it is a snapshot bundle name: the snapshot
/// name; else the bundle name without its extension; else, for a path
/// `/Volumes/<volume>/...`, what follows the volume; else the whole path.
pub open spec fn display_name(path: Seq<char>, is_snapshot: bool, is_bundle: bool) -> Seq<char> {
    let ps = path_parts(path);
    if is_snapshot {
        last_part(path)
    } else if is_bundle {
        trim_end_all(last_part(path), BUNDLE_EXTENSION@)
    } else if ps.len() >= 3 && ps[0] == seq!['/'] && ps[1] == "Volumes"@ {
        join_slash(ps.subrange(3, ps.len() as int))
    } else {
        path
    }
}

/// The components of `path`.
pub fn path_components(path: &str) -> (r: Vec<String>)
    ensures
        r@.map_values(|p: String| p@) == path_parts(path@),
{
    let segs = split_text(path, '/');
    let ghost sv = segs@.map_values(|p: String| p@);
    let mut r: Vec<String> = Vec::new();
    let absolute = !path.is_empty() && path.get_char(0) == '/';
    if absolute {
        let root = String::from_str(path.substring_char(0, 1));
        assert(root@ =~= seq!['/']);
        r.push(root);
    }
    let ghost head = r@.map_values(|p: String| p@);
    proof {
        assert(head =~= (if path@.len() > 0 && path@[0] == '/' { seq![seq!['/']] } else { seq![] }));
        assert(sv.subrange(0, 0) =~= Seq::<Seq<char>>::empty());
        assert(head + kept(sv.subrange(0, 0)) =~= head);
    }
    let mut i: usize = 0;
    while i < segs.len()
        invariant
            i <= segs@.len(),
            sv == segs@.map_values(|p: String| p@),
            r@.map_values(|p: String| p@) == head + kept(sv.subrange(0, i as int)),
        decreases segs@.len() - i,
    {
        proof {
            assert(sv.subrange(0, i + 1).drop_last() =~= sv.subrange(0, i as int));
        }
        if is_kept_part(&segs[i]) {
            let ghost before = r@.map_values(|p: String| p@);
            r.push(segs[i].clone());
            assert(r@.map_values(|p: String| p@) =~= before.push(sv[i as int]));
        }
        i = i + 1;
    }
    assert(sv.subrange(0, i as int) =~= sv);
    r
}

/// The display name of a backup at `path`, given whether its last component is
/// a snapshot name and whether it is a snapshot bundle name.
pub fn name_from_matches(path: &str, is_snapshot: bool, is_bundle: bool) -> (r: String)
    ensures
        r@ == display_name(path@, is_snapshot, is_bundle),
{
    let parts = path_components(path);
    let ghost ps = parts@.map_values(|p: String| p@);
    let last = if parts.len() > 0 {
        parts[parts.len() - 1].clone()
    } else {
        String::new()
    };
    assert(last@ == last_part(path@));
    if is_snapshot {
        return last;
    }
    if is_bundle {
        return trim_end_matches(last.as_str(), BUNDLE_EXTENSION);
    }
    if parts.len() >= 3 {
        let volumes = String::from_str("Volumes");
        if parts[1] == volumes && parts[0].as_str().unicode_len() == 1 && parts[0].as_str().get_char(0) == '/' {
            assert(ps[0] =~= seq!['/']);
            let mut rest: Vec<String> = Vec::new();
            let mut i: usize = 3;
            while i < parts.len()
                invariant
                    3 <= i <= parts@.len(),
                    ps == parts@.map_values(|p: String| p@),
                    rest@.map_values(|p: String| p@) == ps.subrange(3, i as int),
                decreases parts@.len() - i,
            {
                let ghost before = rest@.map_values(|p: String| p@);
                rest.push(parts[i].clone());
                assert(rest@.map_values(|p: String| p@) =~= before.push(ps[i as int]));
                assert(ps.subrange(3, i + 1) =~= ps.subrange(3, i as int).push(ps[i as int]));
                i = i + 1;
            }
            return join_with_slash(&rest);
        }
        assert(!(ps[0] == seq!['/'] && ps[1] == "Volumes"@));
    }
    String::from_str(path)
}

/// The display name of a backup at `path`.
pub fn name_from_path(path: &str) -> (r: String)
    ensures
        r@ == display_name(
            path@,
            matches_pattern(SNAPSHOT_PATTERN@, last_part(path@)),
            matches_pattern(SNAPSHOT_BUNDLE_PATTERN@, last_part(path@)),
        ),
{
    let parts = path_components(path);
    let last = if parts.len() > 0 {
        parts[parts.len() - 1].clone()
    } else {
        String::new()
    };
    let is_snapshot = match regex_match(SNAPSHOT_PATTERN, last.as_str()) {
        Some(b) => b,
        None => false,
    };
    let is_bundle = match regex_match(SNAPSHOT_BUNDLE_PATTERN, last.as_str()) {
        Some(b) => b,
        None => false,
    };
    name_from_matches(path, is_snapshot, is_bundle)
}

/// A backup destination.
pub struct Destination {
    /// The backups, once they have been listed.
    pub backups: Option<Vec<Backup>>,
    pub mount_point: String,
}

impl Destination {
    /// Records the listed backups and hands them back.
    pub fn load_backups_list(&mut self, backups: Vec<Backup>) -> (r: &Vec<Backup>)
        ensures
            final(self).backups == Some(backups),
            final(self).mount_point == old(self).mount_point,
            *r == backups,
    {
        self.backups = Some(backups);
        self.backups.as_ref().unwrap()
    }
}

/// The known destinations, by ID, once they have been loaded.
pub struct Destinations {
    pub destinations: Option<StrMap<Destination>>,
}

impl Destinations {
    pub open spec fn wf(&self) -> bool {
        match self.destinations {
            Some(m) => m.wf(),
            None => true,
        }
    }

    /// No destinations loaded yet.
    pub fn new() -> (r: Self)
        ensures
            r.destinations is None,
    {
        Destinations { destinations: None }
    }

    /// The destination with ID `id`.
    pub fn get_destination(&mut self, id: &str) -> (r: Result<&mut Destination, Error>)
        requires
            old(self).wf(),
        ensures
            match old(self).destinations {
                None => match r {
                    Err(e) => e.is_not_found("destinations"@) && *final(self) == *old(self),
                    Ok(_) => false,
                },
                Some(m) => match r {
                    Ok(d) => m@.contains_key(id@) && *d == m@[id@] && final(self).wf()
                        && final(self).destinations is Some
                        && final(self).destinations->0@ == m@.insert(id@, *final(d)),
                    Err(e) => !m@.contains_key(id@) && e.is_not_found(id@) && *final(self) == *old(self),
                },
            },
    {
        match &mut self.destinations {
            Some(m) => match m.get_mut(id) {
                Some(d) => Ok(d),
                None => Err(Error::NotFound(String::from_str(id))),
            },
            None => Err(Error::NotFound(String::from_str("destinations"))),
        }
    }
}

/// The non-empty lines among `lines`.
pub open spec fn non_empty(lines: Seq<Seq<char>>) -> Seq<Seq<char>>
    decreases lines.len(),
{
    if lines.len() == 0 {
        seq![]
    } else if lines.last().len() > 0 {
        non_empty(lines.drop_last()).push(lines.last())
    } else {
        non_empty(lines.drop_last())
    }
}

/// The snapshot paths in the output of a listing: its non-empty lines, once
/// white space around the whole output is removed.
pub open spec fn listed_paths(output: Seq<char>) -> Seq<Seq<char>> {
    non_empty(split_on(trim(output), '\n'))
}

/// The snapshot paths in the output of a listing.
pub fn listing_paths(output: &str) -> (r: Vec<String>)
    ensures
        r@.map_values(|p: String| p@) == listed_paths(output@),
{
    let text = trim_text(output);
    let lines = split_text(text.as_str(), '\n');
    let ghost lv = lines@.map_values(|p: String| p@);
    let mut r: Vec<String> = Vec::new();
    let mut i: usize = 0;
    assert(lv.subrange(0, 0) =~= Seq::<Seq<char>>::empty());
    while i < lines.len()
        invariant
            i <= lines@.len(),
            lv == lines@.map_values(|p: String| p@),
            r@.map_values(|p: String| p@) == non_empty(lv.subrange(0, i as int)),
        decreases lines@.len() - i,
    {
        assert(lv.subrange(0, i + 1).drop_last() =~= lv.subrange(0, i as int));
        if !lines[i].as_str().is_empty() {
            let ghost before = r@.map_values(|p: String| p@);
            r.push(lines[i].clone());
            assert(r@.map_values(|p: String| p@) =~= before.push(lv[i as int]));
        }
        i = i + 1;
    }
    assert(lv.subrange(0, i as int) =~= lv);
    r
}

/// What the listing command says when the host has no machine directory on
/// the destination, in lower case.
pub const NO_MACHINE_DIRECTORY: &'static str = "no machine directory found";

/// The output of a failed listing says that there is no machine directory.
pub open spec fn reports_no_machine_directory(stdout: Seq<u8>, stderr: Seq<u8>) -> bool {
    (valid_utf8(stderr) && contains_ignoring_case(decode_utf8(stderr), NO_MACHINE_DIRECTORY@)) || (
    valid_utf8(stdout) && contains_ignoring_case(decode_utf8(stdout), NO_MACHINE_DIRECTORY@))
}

fn says_no_machine_directory(bytes: &Vec<u8>) -> (r: bool)
    ensures
        r == (valid_utf8(bytes@) && contains_ignoring_case(decode_utf8(bytes@), NO_MACHINE_DIRECTORY@)),
{
    match utf8_text(bytes.as_slice()) {
        Some(t) => contains_text_ignoring_case(t.as_str(), NO_MACHINE_DIRECTORY),
        None => false,
    }
}

/// The snapshot paths from a listing command's outcome. A failure whose output
/// says that there is no machine directory lists no snapshot; any other
/// failure is an error with the command's diagnostic.
pub fn listing_result(success: bool, code: Option<i32>, stdout: Vec<u8>, stderr: Vec<u8>) -> (r: Result<Vec<String>, Error>)
    ensures
        success ==> match r {
            Ok(ps) => valid_utf8(stdout@) && ps@.map_values(|p: String| p@) == listed_paths(decode_utf8(stdout@)),
            Err(e) => !valid_utf8(stdout@) && e is CommandExecution && e->CommandExecution_0@ == unreadable_output_message(),
        },
        !success && reports_no_machine_directory(stdout@, stderr@) ==> match r {
            Ok(ps) => ps@.len() == 0,
            Err(_) => false,
        },
        !success && !reports_no_machine_directory(stdout@, stderr@) ==> match r {
            Err(Error::CommandExecution(m)) => if valid_utf8(stderr@) {
                m@ == failure_message(code, decode_utf8(stderr@))
            } else {
                m@ == unreadable_output_message()
            },
            _ => false,
        },
{
    if !success {
        if says_no_machine_directory(&stderr) || says_no_machine_directory(&stdout) {
            return Ok(Vec::new());
        }
        return match check_cmd_success(false, code, stderr) {
            Ok(()) => Ok(Vec::new()),
            Err(e) => Err(e),
        };
    }
    match parse_output(stdout) {
        Ok(text) => Ok(listing_paths(text.as_str())),
        Err(e) => Err(e),
    }
}

/// `p` starts at the filesystem root.
pub open spec fn is_absolute(p: Seq<char>) -> bool {
    p.len() > 0 && p[0] == '/'
}

/// Some path of `paths` is relative to the machine directory.
pub open spec fn any_relative(paths: Seq<String>) -> bool {
    exists|i: int| 0 <= i < paths.len() && !is_absolute(#[trigger] paths[i]@)
}

/// Whether the machine directory is needed to resolve `paths`.
pub fn needs_machine_directory(paths: &Vec<String>) -> (r: bool)
    ensures
        r == any_relative(paths@),
{
    let mut i: usize = 0;
    while i < paths.len()
        invariant
            i <= paths@.len(),
            forall|j: int| 0 <= j < i ==> is_absolute(#[trigger] paths@[j]@),
        decreases paths@.len() - i,
    {
        let p = paths[i].as_str();
        if p.is_empty() || p.get_char(0) != '/' {
            assert(!is_absolute(paths@[i as int]@));
            return true;
        }
        i = i + 1;
    }
    false
}

/// The machine directory from the output of the command that prints it.
pub fn machine_directory_from_output(stdout: Vec<u8>) -> (r: Result<String, Error>)
    ensures
        match r {
            Ok(d) => valid_utf8(stdout@) && d@ == trim(decode_utf8(stdout@)),
            Err(e) => !valid_utf8(stdout@) && e is CommandExecution,
        },
{
    match parse_output(stdout) {
        Ok(text) => Ok(trim_text(text.as_str())),
        Err(e) => Err(e),
    }
}

/// `p` as an absolute path: unchanged where it is one, else below `machine_dir`.
pub open spec fn resolved(p: Seq<char>, machine_dir: Seq<char>) -> Seq<char> {
    if is_absolute(p) {
        p
    } else {
        machine_dir + "/"@ + p
    }
}

/// The backup at absolute path `p`, named from its path.
pub open spec fn is_backup_at(b: Backup, p: Seq<char>) -> bool {
    &&& b.path@ == p
    &&& b.name@ == display_name(
        p,
        matches_pattern(SNAPSHOT_PATTERN@, last_part(p)),
        matches_pattern(SNAPSHOT_BUNDLE_PATTERN@, last_part(p)),
    )
}

/// The backups at `paths`, relative ones resolved below `machine_dir`, in order.
pub fn backups_from_paths(paths: &Vec<String>, machine_dir: &str) -> (r: Vec<Backup>)
    ensures
        r@.len() == paths@.len(),
        forall|i: int| 0 <= i < paths@.len() ==> is_backup_at(#[trigger] r@[i], resolved(paths@[i]@, machine_dir@)),
{
    let mut r: Vec<Backup> = Vec::with_capacity(paths.len());
    let mut i: usize = 0;
    while i < paths.len()
        invariant
            i <= paths@.len(),
            r@.len() == i,
            forall|j: int| 0 <= j < i ==> is_backup_at(#[trigger] r@[j], resolved(paths@[j]@, machine_dir@)),
        decreases paths@.len() - i,
    {
        let p = paths[i].as_str();
        let path = if !p.is_empty() && p.get_char(0) == '/' {
            String::from_str(p)
        } else {
            proof {
                reveal_strlit("/");
            }
            let mut full = String::from_str(machine_dir);
            full.append("/");
            full.append(p);
            full
        };
        let name = name_from_path(path.as_str());
        r.push(Backup { path, name });
        i = i + 1;
    }
    r
}

} // verus!
