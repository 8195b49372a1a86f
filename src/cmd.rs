use vstd::prelude::*;
use vstd::utf8::{decode_utf8, valid_utf8};
use crate::error::Error;
use crate::listbackups::{Backup, Destinations};
use crate::text::{decimal, decimal_text};

verus! {

/// Relies on `std::str::from_utf8`, which reads valid UTF-8 as the characters
/// it encodes and fails on anything else.
#[verifier::external_body]
pub(crate) fn utf8_text(bytes: &[u8]) -> (r: Option<String>)
    ensures
        match r {
            Some(s) => valid_utf8(bytes@) && s@ == decode_utf8(bytes@),
            None => !valid_utf8(bytes@),
        },
{
    match std::str::from_utf8(bytes) {
        Ok(s) => Some(s.to_string()),
        Err(_) => None,
    }
}

/// The message for command output that is not UTF-8.
pub open spec fn unreadable_output_message() -> Seq<char> {
    "Unable to parse output: invalid UTF-8"@
}

/// The text of a command's output.
pub fn parse_output(bytes: Vec<u8>) -> (r: Result<String, Error>)
    ensures
        match r {
            Ok(s) => valid_utf8(bytes@) && s@ == decode_utf8(bytes@),
            Err(e) => !valid_utf8(bytes@) && e is CommandExecution
                && e->CommandExecution_0@ == unreadable_output_message(),
        },
{
    match utf8_text(bytes.as_slice()) {
        Some(s) => Ok(s),
        None => Err(Error::CommandExecution(String::from_str("Unable to parse output: invalid UTF-8"))),
    }
}

/// An exit code in decimal, or `None` where the process had none.
pub open spec fn code_text(code: Option<i32>) -> Seq<char> {
    match code {
        Some(c) => decimal(c as int),
        None => "None"@,
    }
}

pub fn code_to_str(code: Option<i32>) -> (r: String)
    ensures
        r@ == code_text(code),
{
    match code {
        Some(c) => decimal_text(c as i64),
        None => String::from_str("None"),
    }
}

/// The message for a failed command with exit code `code` and diagnostic `stderr`.
pub open spec fn failure_message(code: Option<i32>, stderr: Seq<char>) -> Seq<char> {
    "tmutil error "@ + code_text(code) + ":\n"@ + stderr
}

/// Succeeds where the command succeeded; otherwise fails with its exit code and
/// its diagnostic output.
pub fn check_cmd_success(success: bool, code: Option<i32>, stderr: Vec<u8>) -> (r: Result<(), Error>)
    ensures
        success ==> r is Ok,
        !success ==> match r {
            Ok(_) => false,
            Err(Error::CommandExecution(m)) => if valid_utf8(stderr@) {
                m@ == failure_message(code, decode_utf8(stderr@))
            } else {
                m@ == unreadable_output_message()
            },
            Err(_) => false,
        },
{
    if success {
        return Ok(());
    }
    let text = match parse_output(stderr) {
        Ok(s) => s,
        Err(e) => {
            return Err(e);
        },
    };
    let mut m = String::from_str("tmutil error ");
    m.append(code_to_str(code).as_str());
    m.append(":\n");
    m.append(text.as_str());
    Err(Error::CommandExecution(m))
}

/// The first position of a backup at path `p` in `bs`.
pub open spec fn position(bs: Seq<Backup>, p: Seq<char>) -> Option<int>
    decreases bs.len(),
{
    if bs.len() == 0 {
        None
    } else {
        match position(bs.drop_last(), p) {
            Some(i) => Some(i),
            None => if bs.last().path@ == p {
                Some(bs.len() - 1)
            } else {
                None
            },
        }
    }
}

proof fn lemma_position(bs: Seq<Backup>, p: Seq<char>, k: int)
    requires
        0 <= k <= bs.len(),
        forall|j: int| 0 <= j < k ==> (#[trigger] bs[j]).path@ != p,
    ensures
        k < bs.len() && bs[k].path@ == p ==> position(bs, p) == Some(k),
        k == bs.len() ==> position(bs, p) is None,
    decreases bs.len(),
{
    if bs.len() > 0 {
        if k == bs.len() {
            lemma_position(bs.drop_last(), p, k - 1);
        } else if bs[k].path@ == p {
            lemma_position(bs.drop_last(), p, k);
        }
    }
}

/// The message for a backup with no backup before it.
pub open spec fn no_previous(new_b: Seq<char>) -> Seq<char> {
    "backup before "@ + new_b
}

/// The snapshots to compare to see what backup `new_b` of destination
/// `destination_id` changed: the backup listed just before it, and itself.
pub fn comparison_pair(destinations: &Destinations, destination_id: &str, new_b: &str) -> (r: Result<(String, String), Error>)
    requires
        destinations.wf(),
    ensures
        match destinations.destinations {
            None => r matches Err(e) && e.is_not_found("destinations"@),
            Some(m) => if !m@.contains_key(destination_id@) {
                r matches Err(e) && e.is_not_found(destination_id@)
            } else {
                match m@[destination_id@].backups {
                    None => r matches Err(e) && e.is_not_found("backup list"@),
                    Some(bs) => match position(bs@, new_b@) {
                        None => r matches Err(e) && e.is_not_found(new_b@),
                        Some(i) => if i == 0 {
                            r matches Err(e) && e.is_not_found(no_previous(new_b@))
                        } else {
                            r matches Ok((o, n)) && o@ == bs@[i - 1].path@ && n@ == new_b@
                        },
                    },
                }
            },
        },
{
    let m = match &destinations.destinations {
        Some(m) => m,
        None => {
            return Err(Error::NotFound(String::from_str("destinations")));
        },
    };
    let destination = match m.get(destination_id) {
        Some(d) => d,
        None => {
            return Err(Error::NotFound(String::from_str(destination_id)));
        },
    };
    let backups = match &destination.backups {
        Some(b) => b,
        None => {
            return Err(Error::NotFound(String::from_str("backup list")));
        },
    };
    let target = String::from_str(new_b);
    let mut i: usize = 0;
    while i < backups.len()
        invariant
            i <= backups@.len(),
            target@ == new_b@,
            destinations.destinations == Some(*m),
            m@.contains_key(destination_id@) && m@[destination_id@] == *destination,
            destination.backups == Some(*backups),
            forall|j: int| 0 <= j < i ==> (#[trigger] backups@[j]).path@ != new_b@,
        decreases backups@.len() - i,
    {
        if backups[i].path == target {
            proof {
                lemma_position(backups@, new_b@, i as int);
            }
            if i == 0 {
                return Err(Error::NotFound(String::from_str("backup before ").concat(new_b)));
            }
            return Ok((backups[i - 1].path.clone(), target));
        }
        i = i + 1;
    }
    proof {
        lemma_position(backups@, new_b@, i as int);
    }
    Err(Error::NotFound(target))
}

/// The backup list of destination `destination_id`, where a request that does
/// not ask to `refresh` can be answered with the list already loaded; `None`
/// where the list has to be loaded.
pub fn cached_backups<'a>(destinations: &'a Destinations, destination_id: &str, refresh: bool) -> (r: Result<Option<&'a Vec<Backup>>, Error>)
    requires
        destinations.wf(),
    ensures
        match destinations.destinations {
            None => r matches Err(e) && e.is_not_found("destinations"@),
            Some(m) => if !m@.contains_key(destination_id@) {
                r matches Err(e) && e.is_not_found(destination_id@)
            } else {
                match r {
                    Ok(Some(bs)) => !refresh && m@[destination_id@].backups == Some(*bs),
                    Ok(None) => refresh || m@[destination_id@].backups is None,
                    Err(_) => false,
                }
            },
        },
{
    let m = match &destinations.destinations {
        Some(m) => m,
        None => {
            return Err(Error::NotFound(String::from_str("destinations")));
        },
    };
    let destination = match m.get(destination_id) {
        Some(d) => d,
        None => {
            return Err(Error::NotFound(String::from_str(destination_id)));
        },
    };
    if refresh {
        return Ok(None);
    }
    match &destination.backups {
        Some(bs) => Ok(Some(bs)),
        None => Ok(None),
    }
}

} // verus!
