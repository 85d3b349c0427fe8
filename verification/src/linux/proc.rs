//! `/proc/<pid>/status` and its neighbours: the memory record of one
//! process and the predicates that protect a process from selection.

use crate::ffi::types::{ProcessId, SystemError};
use crate::linux::proc_stat::i32_or_zero;
use crate::linux::text::{
    bytes_eq, find_first, i32_of, lines, parse_i32, parse_u64, split_fields, split_lines, tokens,
    trim, trimmed, u64_of, views, COLON,
};
use vstd::prelude::*;
use vstd::slice::{slice_subrange, slice_to_vec};
use vstd::string::StringSliceAdditionalSpecFns;

verus! {

/// The byte `[`, with which the name of a kernel thread begins.
pub const OPEN_BRACKET: u8 = 91;

/// The byte `Z`, the state letter of a zombie.
pub const ZOMBIE: u8 = 90;

/// The adjustment that makes a process immortal.
pub const OOM_SCORE_ADJ_MIN: i32 = -1000;

/// The largest adjustment.
pub const OOM_SCORE_ADJ_MAX: i32 = 1000;

/// Memory figures of one process, in bytes, and the kernel's view of how
/// killable it is.
#[derive(Debug, Clone, Copy, PartialEq, Eq, Structural)]
pub struct ProcessMemInfo {
    pub vm_peak: u64,
    pub vm_size: u64,
    pub vm_rss: u64,
    pub vm_swap: u64,
    pub oom_score: i32,
    pub oom_score_adj: i32,
}

/// One process as a selection pass sees it.
#[derive(Debug, Clone)]
pub struct ProcessInfo {
    pub pid: ProcessId,
    pub name: Vec<u8>,
    /// The whole state as the kernel words it; its first byte is the state
    /// letter.
    pub state: Vec<u8>,
    pub ppid: i32,
    /// The user that owns the process, where it is known.
    pub uid: Option<u32>,
    pub mem_info: ProcessMemInfo,
}

/// What a `ProcessInfo` holds.
pub struct ProcessInfoView {
    pub pid: ProcessId,
    pub name: Seq<u8>,
    pub state: Seq<u8>,
    pub ppid: i32,
    pub uid: Option<u32>,
    pub mem_info: ProcessMemInfo,
}

impl View for ProcessInfo {
    type V = ProcessInfoView;

    open spec fn view(&self) -> ProcessInfoView {
        ProcessInfoView {
            pid: self.pid,
            name: self.name@,
            state: self.state@,
            ppid: self.ppid,
            uid: self.uid,
            mem_info: self.mem_info,
        }
    }
}

/// The key and the value of a line `key: value`, each without the
/// whitespace around it. The first colon separates them.
pub open spec fn entry_of(line: Seq<u8>) -> Option<(Seq<u8>, Seq<u8>)> {
    match line.index_of_first(COLON) {
        Some(colon) => Some((trimmed(line.take(colon)), trimmed(line.skip(colon + 1)))),
        None => None,
    }
}

/// The value of the last of `lines` whose key is `key`.
pub open spec fn last_value(lines: Seq<Seq<u8>>, key: Seq<u8>) -> Option<Seq<u8>>
    decreases lines.len(),
{
    if lines.len() == 0 {
        None
    } else {
        match entry_of(lines.last()) {
            Some((k, v)) => if k == key {
                Some(v)
            } else {
                last_value(lines.drop_last(), key)
            },
            None => last_value(lines.drop_last(), key),
        }
    }
}

/// The text that `content` gives for `key`, empty where it gives none.
pub open spec fn text_value(content: Seq<u8>, key: Seq<u8>) -> Seq<u8> {
    match last_value(lines(content), key) {
        Some(v) => v,
        None => Seq::<u8>::empty(),
    }
}

/// The number in a value such as `1024 kB`: its first field, or zero where
/// that is no number.
pub open spec fn kb_value(value: Seq<u8>) -> u64 {
    let fields = tokens(value);
    if fields.len() > 0 {
        match u64_of(fields[0]) {
            Some(n) => n,
            None => 0,
        }
    } else {
        0
    }
}

/// The bytes in `kb` kilobytes; the largest `u64` where the product does
/// not fit.
pub open spec fn kb_to_bytes(kb: u64) -> u64 {
    if kb * 1024 <= u64::MAX {
        (kb * 1024) as u64
    } else {
        u64::MAX
    }
}

/// The byte count that `content` gives for `key`, zero where it gives
/// none.
pub open spec fn size_value(content: Seq<u8>, key: Seq<u8>) -> u64 {
    kb_to_bytes(kb_value(text_value(content, key)))
}

/// The user in a value such as `1000 1000 1000 1000`: its first field,
/// where that is a number that fits.
pub open spec fn uid_value(value: Seq<u8>) -> Option<u32> {
    let fields = tokens(value);
    if fields.len() > 0 {
        match u64_of(fields[0]) {
            Some(n) => if n <= u32::MAX {
                Some(n as u32)
            } else {
                None
            },
            None => None,
        }
    } else {
        None
    }
}

/// The single integer that a file such as `oom_score` holds.
pub open spec fn proc_value_of(content: Seq<u8>) -> Result<i32, SystemError> {
    match i32_of(trimmed(content)) {
        Some(v) => Ok(v),
        None => Err(SystemError::InvalidData),
    }
}

/// The record that the three files of one process give. Of `status` the
/// keys `Name`, `State`, `PPid`, `Uid`, `VmPeak`, `VmSize`, `VmRSS` and
/// `VmSwap` are read, each from its last line, and all others ignored. A
/// missing text is empty, a missing or unreadable number is zero, a
/// missing or unreadable owner is unknown. The two scores are required.
pub open spec fn process_info_of(
    pid: ProcessId,
    status: Seq<u8>,
    oom_score: Seq<u8>,
    oom_score_adj: Seq<u8>,
) -> Result<ProcessInfoView, SystemError> {
    match (proc_value_of(oom_score), proc_value_of(oom_score_adj)) {
        (Ok(score), Ok(adj)) => Ok(
            ProcessInfoView {
                pid,
                name: text_value(status, "Name".spec_bytes()),
                state: text_value(status, "State".spec_bytes()),
                ppid: i32_or_zero(text_value(status, "PPid".spec_bytes())),
                uid: uid_value(text_value(status, "Uid".spec_bytes())),
                mem_info: ProcessMemInfo {
                    vm_peak: size_value(status, "VmPeak".spec_bytes()),
                    vm_size: size_value(status, "VmSize".spec_bytes()),
                    vm_rss: size_value(status, "VmRSS".spec_bytes()),
                    vm_swap: size_value(status, "VmSwap".spec_bytes()),
                    oom_score: score,
                    oom_score_adj: adj,
                },
            },
        ),
        _ => Err(SystemError::InvalidData),
    }
}

/// A kernel thread: its name begins with `[`, or it has no parent and is
/// not the first process.
pub open spec fn spec_is_kernel_thread(p: ProcessInfoView) -> bool {
    (p.name.len() > 0 && p.name[0] == OPEN_BRACKET) || (p.ppid == 0 && p.pid.raw() != 1)
}

/// A process that the killer may terminate at all: no kernel thread, not
/// made immortal by its adjustment, and no zombie.
pub open spec fn spec_is_oomable(p: ProcessInfoView) -> bool {
    &&& !spec_is_kernel_thread(p)
    &&& p.mem_info.oom_score_adj > OOM_SCORE_ADJ_MIN
    &&& !(p.state.len() > 0 && p.state[0] == ZOMBIE)
}

/// Whether `names` holds `name`.
pub open spec fn names_contain(names: Seq<Vec<u8>>, name: Seq<u8>) -> bool {
    exists|i: int| 0 <= i < names.len() && (#[trigger] names[i])@ == name
}

/// A system process: one that the superuser owns, or a child of the first
/// process whose name is on the deny-list.
pub open spec fn spec_is_system_process(p: ProcessInfoView, deny_list: Seq<Vec<u8>>) -> bool {
    p.uid == Some(0u32) || (p.ppid == 1 && names_contain(deny_list, p.name))
}

/// The records among `reads` that could be read, in their order.
pub open spec fn readable(reads: Seq<Result<ProcessInfo, SystemError>>) -> Seq<ProcessInfo>
    decreases reads.len(),
{
    if reads.len() == 0 {
        Seq::<ProcessInfo>::empty()
    } else {
        match reads.last() {
            Ok(p) => readable(reads.drop_last()).push(p),
            Err(_) => readable(reads.drop_last()),
        }
    }
}

/// The name of a directory under `/proc` that stands for a process: a
/// numeral of a positive `i32`.
pub open spec fn pid_of_name(name: Seq<u8>) -> Option<int> {
    match i32_of(name) {
        Some(n) => if n > 0 {
            Some(n as int)
        } else {
            None
        },
        None => None,
    }
}

/// Splits a line at its first colon.
pub fn split_entry<'a>(line: &'a [u8]) -> (r: Option<(&'a [u8], &'a [u8])>)
    ensures
        match r {
            Some((k, v)) => entry_of(line@) == Some((k@, v@)),
            None => entry_of(line@) is None,
        },
{
    match find_first(line, COLON) {
        Some(colon) => {
            let before = slice_subrange(line, 0, colon);
            let after = slice_subrange(line, colon + 1, line.len());
            assert(before@ =~= line@.take(colon as int));
            assert(after@ =~= line@.skip(colon + 1));
            Some((trim(before), trim(after)))
        },
        None => None,
    }
}

/// The value of the last of `lines` whose key is `key`.
pub fn find_value<'a>(lines: &Vec<&'a [u8]>, key: &[u8]) -> (r: Option<&'a [u8]>)
    ensures
        match r {
            Some(v) => last_value(views(lines@), key@) == Some(v@),
            None => last_value(views(lines@), key@) is None,
        },
{
    let ghost all = views(lines@);
    let mut i: usize = lines.len();
    assert(all.take(i as int) =~= all);
    while i > 0
        invariant
            i <= lines.len(),
            all == views(lines@),
            last_value(all, key@) == last_value(all.take(i as int), key@),
        decreases i,
    {
        let ghost upto = all.take(i as int);
        i -= 1;
        assert(upto.last() == lines@[i as int]@);
        assert(upto.drop_last() =~= all.take(i as int));
        match split_entry(lines[i]) {
            Some((k, v)) => {
                if bytes_eq(k, key) {
                    return Some(v);
                }
            },
            None => {},
        }
    }
    None
}

/// The text that the lines give for `key`, empty where they give none.
fn find_text(lines: &Vec<&[u8]>, key: &[u8]) -> (r: Vec<u8>)
    ensures
        r@ == (match last_value(views(lines@), key@) {
            Some(v) => v,
            None => Seq::<u8>::empty(),
        }),
{
    match find_value(lines, key) {
        Some(v) => slice_to_vec(v),
        None => Vec::new(),
    }
}

/// The user in a value such as `1000 1000 1000 1000`.
pub fn parse_uid(value: &[u8]) -> (uid: Option<u32>)
    ensures
        uid == uid_value(value@),
{
    let fields = split_fields(value);
    if fields.len() > 0 {
        assert(views(fields@)[0] == fields@[0]@);
        match parse_u64(fields[0]) {
            Some(n) => if n <= u32::MAX as u64 {
                Some(n as u32)
            } else {
                None
            },
            None => None,
        }
    } else {
        None
    }
}

/// The number in a value such as `1024 kB`.
pub fn parse_kb_bytes(value: &[u8]) -> (kb: u64)
    ensures
        kb == kb_value(value@),
{
    let fields = split_fields(value);
    if fields.len() > 0 {
        assert(views(fields@)[0] == fields@[0]@);
        match parse_u64(fields[0]) {
            Some(n) => n,
            None => 0,
        }
    } else {
        0
    }
}

/// The number in a value such as `1024 kB`.
pub fn parse_kb_value(value: &str) -> (kb: u64)
    ensures
        kb == kb_value(value.spec_bytes()),
{
    parse_kb_bytes(value.as_bytes())
}

/// The bytes in `kb` kilobytes.
pub fn bytes_of_kb(kb: u64) -> (bytes: u64)
    ensures
        bytes == kb_to_bytes(kb),
{
    match kb.checked_mul(1024) {
        Some(b) => b,
        None => u64::MAX,
    }
}

/// The byte count that the lines give for `key`.
pub fn find_size(lines: &Vec<&[u8]>, key: &[u8]) -> (bytes: u64)
    ensures
        bytes == kb_to_bytes(
            kb_value(
                match last_value(views(lines@), key@) {
                    Some(v) => v,
                    None => Seq::<u8>::empty(),
                },
            ),
        ),
{
    match find_value(lines, key) {
        Some(v) => bytes_of_kb(parse_kb_bytes(v)),
        None => {
            let none = Vec::new();
            bytes_of_kb(parse_kb_bytes(none.as_slice()))
        },
    }
}

/// Reads the single integer that a file such as `oom_score` holds.
pub fn read_proc_value(content: &[u8]) -> (r: Result<i32, SystemError>)
    ensures
        r == proc_value_of(content@),
{
    match parse_i32(trim(content)) {
        Some(v) => Ok(v),
        None => Err(SystemError::InvalidData),
    }
}

/// The process that a directory name under `/proc` stands for, if any.
pub fn pid_from_dir_name(name: &[u8]) -> (r: Option<ProcessId>)
    ensures
        match r {
            Some(pid) => pid_of_name(name@) == Some(pid.raw()),
            None => pid_of_name(name@) is None,
        },
{
    match parse_i32(name) {
        Some(n) => ProcessId::new(n),
        None => None,
    }
}

/// Keeps the processes that could be read and drops the others: a process
/// that vanished or refused to be read during enumeration is no error.
pub fn get_all_processes(reads: Vec<Result<ProcessInfo, SystemError>>) -> (processes: Vec<
    ProcessInfo,
>)
    ensures
        processes@ == readable(reads@),
{
    let ghost all = reads@;
    let mut out: Vec<ProcessInfo> = Vec::new();
    for read in it: reads
        invariant
            it.seq() == all,
            out@ == readable(all.take(it.index() as int)),
    {
        let ghost before = all.take(it.index() as int);
        let ghost after = all.take(it.index() + 1);
        assert(after.drop_last() =~= before);
        assert(after.last() == read);
        match read {
            Ok(p) => {
                out.push(p);
            },
            Err(_) => {},
        }
    }
    assert(all.take(all.len() as int) =~= all);
    out
}

impl ProcessInfo {
    /// The record that the content of `/proc/<pid>/status`,
    /// `/proc/<pid>/oom_score` and `/proc/<pid>/oom_score_adj` gives.
    pub fn from_pid(pid: ProcessId, status: &[u8], oom_score: &[u8], oom_score_adj: &[u8]) -> (r:
        Result<ProcessInfo, SystemError>)
        ensures
            match r {
                Ok(p) => process_info_of(pid, status@, oom_score@, oom_score_adj@) == Ok::<
                    ProcessInfoView,
                    SystemError,
                >(p@),
                Err(e) => process_info_of(pid, status@, oom_score@, oom_score_adj@) == Err::<
                    ProcessInfoView,
                    SystemError,
                >(e),
            },
    {
        let lines = split_lines(status);
        let name = find_text(&lines, "Name".as_bytes());
        let state = find_text(&lines, "State".as_bytes());
        let parent = find_text(&lines, "PPid".as_bytes());
        let ppid = match parse_i32(parent.as_slice()) {
            Some(n) => n,
            None => 0,
        };
        let owner = find_text(&lines, "Uid".as_bytes());
        let uid = parse_uid(owner.as_slice());
        let vm_peak = find_size(&lines, "VmPeak".as_bytes());
        let vm_size = find_size(&lines, "VmSize".as_bytes());
        let vm_rss = find_size(&lines, "VmRSS".as_bytes());
        let vm_swap = find_size(&lines, "VmSwap".as_bytes());
        let score = match read_proc_value(oom_score) {
            Ok(v) => v,
            Err(e) => {
                return Err(e);
            },
        };
        let adj = match read_proc_value(oom_score_adj) {
            Ok(v) => v,
            Err(e) => {
                return Err(e);
            },
        };
        Ok(
            ProcessInfo {
                pid,
                name,
                state,
                ppid,
                uid,
                mem_info: ProcessMemInfo {
                    vm_peak,
                    vm_size,
                    vm_rss,
                    vm_swap,
                    oom_score: score,
                    oom_score_adj: adj,
                },
            },
        )
    }

    /// Whether the process is a kernel thread.
    pub fn is_kernel_thread(&self) -> (r: bool)
        ensures
            r == spec_is_kernel_thread(self@),
    {
        (self.name.len() > 0 && self.name[0] == OPEN_BRACKET) || (self.ppid == 0
            && self.pid.as_raw() != 1)
    }

    /// Whether the killer may terminate the process at all.
    pub fn is_oomable(&self) -> (r: bool)
        ensures
            r == spec_is_oomable(self@),
    {
        !self.is_kernel_thread() && self.mem_info.oom_score_adj > OOM_SCORE_ADJ_MIN && !(
        self.state.len() > 0 && self.state[0] == ZOMBIE)
    }

    /// Whether the process is a system process under `deny_list`.
    pub fn is_system_process(&self, deny_list: &Vec<Vec<u8>>) -> (r: bool)
        ensures
            r == spec_is_system_process(self@, deny_list@),
    {
        match self.uid {
            Some(uid) => {
                if uid == 0 {
                    return true;
                }
            },
            None => {},
        }
        if self.ppid != 1 {
            return false;
        }
        let mut i: usize = 0;
        while i < deny_list.len()
            invariant
                i <= deny_list.len(),
                self.ppid == 1,
                self.uid != Some(0u32),
                forall|j: int| 0 <= j < i ==> (#[trigger] deny_list@[j])@ != self.name@,
            decreases deny_list.len() - i,
        {
            if bytes_eq(deny_list[i].as_slice(), self.name.as_slice()) {
                assert(deny_list@[i as int]@ == self.name@);
                return true;
            }
            i += 1;
        }
        false
    }
}

} // verus!
