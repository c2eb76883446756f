//! Process inspection: the descriptive record of a process, and the logic
//! that turns the names of its file-descriptor directory entries into
//! descriptor numbers.

use vstd::prelude::*;

use crate::parse::{all_dec, dec_value, parse_decimal};

verus! {

/// One process, as read from the process table.
#[derive(Debug, Clone, PartialEq)]
pub struct Process {
    pub pid: usize,
    pub ppid: usize,
    pub command: String,
}

impl Process {
    pub fn new(pid: usize, ppid: usize, command: String) -> (r: Process)
        ensures
            r.pid == pid,
            r.ppid == ppid,
            r.command == command,
    {
        Process { pid, ppid, command }
    }
}

/// Turns the entry names of a file-descriptor directory into descriptor
/// numbers: every name must be a plain decimal number, and an empty
/// directory counts as no information, so both a malformed name and an
/// empty list yield nothing.
pub fn fds_from_names(names: &Vec<String>) -> (r: Option<Vec<usize>>)
    ensures
        r is Some <==> names@.len() > 0 && (forall|i: int|
            0 <= i < names@.len() ==> {
                let s = (#[trigger] names@[i])@;
                s.len() > 0 && all_dec(s) && dec_value(s) <= usize::MAX
            }),
        r matches Some(v) ==> v@.len() == names@.len() && (forall|i: int|
            0 <= i < names@.len() ==> #[trigger] v@[i] == dec_value(names@[i]@)),
{
    let n = names.len();
    let mut res: Vec<usize> = Vec::new();
    for i in 0..n
        invariant
            n == names@.len(),
            res@.len() == i,
            forall|j: int|
                0 <= j < i ==> {
                    let s = (#[trigger] names@[j])@;
                    s.len() > 0 && all_dec(s) && dec_value(s) <= usize::MAX
                },
            forall|j: int| 0 <= j < i ==> #[trigger] res@[j] == dec_value(names@[j]@),
    {
        match parse_decimal(names[i].as_str()) {
            Some(fd) => {
                res.push(fd);
            },
            None => {
                return None;
            },
        }
    }
    if res.len() == 0 {
        None
    } else {
        Some(res)
    }
}

} // verus!
