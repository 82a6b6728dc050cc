//! The hidumper: the CPU usage table of all processes, the chunks read from the
//! fault log files, and the ioctl commands.
use vstd::prelude::*;

verus! {

/// Size in bytes of one usage entry in the table the kernel fills.
pub const CPUP_INFO_SIZE: u32 = 8;

/// How many usage tables are read: all time, ten seconds and one second.
pub const CPUP_TYPE_COUNT: u32 = 3;

/// Bytes read from a fault log file at a time; one byte of the buffer is kept
/// for the terminator.
pub const DUMP_CHUNK_SIZE: usize = 128;

/// Entries in the three usage tables of `max` processes, saturating at the
/// largest `u32`.
pub open spec fn entry_count(max: u32) -> int {
    if 3 * max > 0xffff_ffff {
        0xffff_ffff
    } else {
        3 * max
    }
}

/// Bytes requested for the usage tables of `max` processes: the size of all
/// their entries, saturating at the largest `u32`.
pub open spec fn alloc_size(max: u32) -> int {
    let total = entry_count(max);
    if total * 8 > 0xffff_ffff {
        0xffff_ffff
    } else {
        total * 8
    }
}

/// The number of entries, all three tables together, that are cleared before
/// the tables are read.
pub fn cpu_usage_entry_count(max: u32) -> (n: u32)
    ensures
        n == entry_count(max),
{
    if (max as u64) * 3 > 0xffff_ffff {
        0xffff_ffff
    } else {
        max * 3
    }
}

/// The number of bytes to request for the three usage tables of `max`
/// processes.
pub fn cpu_usage_alloc_size(max: u32) -> (size: u32)
    ensures
        size == alloc_size(max),
{
    let total = cpu_usage_entry_count(max) as u64;
    let bytes: u64 = total * (CPUP_INFO_SIZE as u64);
    if bytes > 0xffff_ffff {
        0xffff_ffff
    } else {
        bytes as u32
    }
}

/// The length in bytes given with each usage table of `max` entries, taken
/// modulo `2^32`.
pub fn cpu_usage_table_len(max: u32) -> (len: u32)
    ensures
        len as int == (max * 8) % 0x1_0000_0000,
{
    let bytes: u64 = (max as u64) * 8;
    let len = bytes as u32;
    assert(len as int == bytes % 0x1_0000_0000) by (bit_vector)
        requires
            len == bytes as u32,
    ;
    len
}

/// The tables can be printed only when all three reads succeeded.
pub fn cpu_usage_queries_ok(ret_all: u32, ret_ten: u32, ret_one: u32) -> (ok: bool)
    ensures
        ok == (ret_all == 0 && ret_ten == 0 && ret_one == 0),
{
    ret_all == 0 && ret_ten == 0 && ret_one == 0
}

/// What the kernel answered about one process slot.
#[derive(Copy, Clone, Debug, PartialEq, Eq, Structural)]
pub struct ProcessQuery {
    /// The answer of the query; `0` when it succeeded.
    pub ret: i32,
    /// The process's own pid.
    pub pid: u32,
    /// Non-zero when the slot holds no process.
    pub unused: u8,
    /// Whether the process has a name.
    pub has_name: bool,
}

/// One line of the CPU usage table: the slot it reports, the process's pid,
/// and its usage over all time, ten seconds and one second.
#[derive(Copy, Clone, Debug, PartialEq, Eq, Structural)]
pub struct CpuUsageRow {
    pub slot: u32,
    pub pid: u32,
    pub all: u32,
    pub ten: u32,
    pub one: u32,
}

/// A slot is printed when the query succeeded and found a named process.
pub open spec fn slot_shown(q: ProcessQuery) -> bool {
    q.ret == 0 && q.unused == 0 && q.has_name
}

/// The line printed for slot `slot`, if any.
pub fn cpu_usage_row(slot: u32, q: &ProcessQuery, all: u32, ten: u32, one: u32) -> (row: Option<
    CpuUsageRow,
>)
    ensures
        !slot_shown(*q) ==> row is None,
        slot_shown(*q) ==> row == Some(CpuUsageRow { slot, pid: q.pid, all, ten, one }),
{
    if q.ret == 0 && q.unused == 0 && q.has_name {
        Some(CpuUsageRow { slot, pid: q.pid, all, ten, one })
    } else {
        None
    }
}

/// The lines of the usage table for the queries of slots `0..max` and their
/// three usage tables, in slot order.
pub open spec fn usage_rows(
    queries: Seq<ProcessQuery>,
    all: Seq<u32>,
    ten: Seq<u32>,
    one: Seq<u32>,
    k: int,
) -> Seq<CpuUsageRow>
    decreases k,
{
    if k <= 0 {
        Seq::empty()
    } else {
        let prev = usage_rows(queries, all, ten, one, k - 1);
        let q = queries[k - 1];
        if slot_shown(q) {
            prev.push(
                CpuUsageRow {
                    slot: (k - 1) as u32,
                    pid: q.pid,
                    all: all[k - 1],
                    ten: ten[k - 1],
                    one: one[k - 1],
                },
            )
        } else {
            prev
        }
    }
}

/// All lines of the usage table: one per slot that holds a named process.
pub fn cpu_usage_rows(
    queries: &Vec<ProcessQuery>,
    all: &Vec<u32>,
    ten: &Vec<u32>,
    one: &Vec<u32>,
) -> (rows: Vec<CpuUsageRow>)
    requires
        queries@.len() <= 0xffff_ffff,
        all@.len() == queries@.len(),
        ten@.len() == queries@.len(),
        one@.len() == queries@.len(),
    ensures
        rows@ == usage_rows(queries@, all@, ten@, one@, queries@.len() as int),
{
    let mut rows: Vec<CpuUsageRow> = Vec::new();
    let mut i: usize = 0;
    while i < queries.len()
        invariant
            i <= queries@.len(),
            queries@.len() <= 0xffff_ffff,
            all@.len() == queries@.len(),
            ten@.len() == queries@.len(),
            one@.len() == queries@.len(),
            rows@ == usage_rows(queries@, all@, ten@, one@, i as int),
        decreases queries@.len() - i,
    {
        match cpu_usage_row(i as u32, &queries[i], all[i], ten[i], one[i]) {
            Some(r) => {
                rows.push(r);
            },
            None => {},
        }
        i = i + 1;
    }
    rows
}

/// Every line of the table reports a slot that holds a named process, with
/// that slot's usage, and the lines come in increasing slot order.
pub proof fn law_usage_rows_shown(
    queries: Seq<ProcessQuery>,
    all: Seq<u32>,
    ten: Seq<u32>,
    one: Seq<u32>,
    k: int,
)
    requires
        0 <= k <= queries.len(),
        k <= 0xffff_ffff,
        all.len() == queries.len(),
        ten.len() == queries.len(),
        one.len() == queries.len(),
    ensures
        forall|i: int|
            0 <= i < usage_rows(queries, all, ten, one, k).len() ==> {
                let r = #[trigger] usage_rows(queries, all, ten, one, k)[i];
                &&& r.slot < k
                &&& slot_shown(queries[r.slot as int])
                &&& r.pid == queries[r.slot as int].pid
                &&& r.all == all[r.slot as int]
                &&& r.ten == ten[r.slot as int]
                &&& r.one == one[r.slot as int]
            },
        forall|i: int, j: int|
            0 <= i < j < usage_rows(queries, all, ten, one, k).len() ==> (#[trigger] usage_rows(
                queries,
                all,
                ten,
                one,
                k,
            )[i]).slot < (#[trigger] usage_rows(queries, all, ten, one, k)[j]).slot,
        usage_rows(queries, all, ten, one, k).len() <= k,
    decreases k,
{
    if k > 0 {
        law_usage_rows_shown(queries, all, ten, one, k - 1);
        let prev = usage_rows(queries, all, ten, one, k - 1);
        let cur = usage_rows(queries, all, ten, one, k);
        if slot_shown(queries[k - 1]) {
            assert forall|i: int| 0 <= i < cur.len() implies {
                let r = #[trigger] cur[i];
                &&& r.slot < k
                &&& slot_shown(queries[r.slot as int])
                &&& r.pid == queries[r.slot as int].pid
                &&& r.all == all[r.slot as int]
                &&& r.ten == ten[r.slot as int]
                &&& r.one == one[r.slot as int]
            } by {
                if i < prev.len() {
                    assert(cur[i] == prev[i]);
                }
            }
            assert forall|i: int, j: int| 0 <= i < j < cur.len() implies (#[trigger] cur[i]).slot
                < (#[trigger] cur[j]).slot by {
                assert(cur[i] == prev[i]);
                if j < prev.len() {
                    assert(cur[j] == prev[j]);
                }
            }
        }
    }
}

/// How many bytes of a chunk read from a fault log are printed: `None` ends the
/// dump (the read gave nothing or failed), otherwise the bytes read, after which
/// the terminator is written.
pub fn dump_chunk_len(n: i32) -> (len: Option<usize>)
    requires
        n < DUMP_CHUNK_SIZE,
    ensures
        n <= 0 ==> len is None,
        n > 0 ==> len == Some(n as usize),
{
    if n <= 0 {
        None
    } else {
        Some(n as usize)
    }
}

/// The command codes the kernel assigns to the hidumper ioctls.
#[derive(Copy, Clone, Debug, PartialEq, Eq, Structural)]
pub struct HidumperCmdCodes {
    pub dump_all: u32,
    pub cpu_usage: u32,
    pub mem_usage: u32,
    pub task_info: u32,
    pub inject_kernel_crash: u32,
    pub dump_fault_log: u32,
    pub mem_data: u32,
}

/// What an ioctl does.  Every command answers `0`; an unknown command is
/// logged and answered with the kernel's `EPERM`.
#[derive(Copy, Clone, Debug, PartialEq, Eq, Structural)]
pub enum IoctlCommand {
    /// System information, CPU usage, memory usage and task information.
    DumpAll,
    CpuUsage,
    MemUsage,
    TaskInfo,
    InjectKernelCrash,
    DumpFaultLog,
    /// Memory data, of the address given as the ioctl's argument.
    MemData,
    /// The command is unknown.
    Invalid,
}

/// The command that `cmd`, read as 32 bits, selects: the first code it equals,
/// in the order the kernel lists them.
pub open spec fn ioctl_command(cmd: u32, codes: HidumperCmdCodes) -> IoctlCommand {
    if cmd == codes.dump_all {
        IoctlCommand::DumpAll
    } else if cmd == codes.cpu_usage {
        IoctlCommand::CpuUsage
    } else if cmd == codes.mem_usage {
        IoctlCommand::MemUsage
    } else if cmd == codes.task_info {
        IoctlCommand::TaskInfo
    } else if cmd == codes.inject_kernel_crash {
        IoctlCommand::InjectKernelCrash
    } else if cmd == codes.dump_fault_log {
        IoctlCommand::DumpFaultLog
    } else if cmd == codes.mem_data {
        IoctlCommand::MemData
    } else {
        IoctlCommand::Invalid
    }
}

/// Decides which dump an ioctl asks for.
pub fn HiDumperIoctlRust(cmd: i32, codes: &HidumperCmdCodes) -> (c: IoctlCommand)
    ensures
        c == ioctl_command(crate::types::u32_of_i32(cmd) as u32, *codes),
{
    let cmd_u = cmd as u32;
    assert(cmd_u as int == crate::types::u32_of_i32(cmd)) by (bit_vector)
        requires
            cmd_u == cmd as u32,
    ;
    if cmd_u == codes.dump_all {
        IoctlCommand::DumpAll
    } else if cmd_u == codes.cpu_usage {
        IoctlCommand::CpuUsage
    } else if cmd_u == codes.mem_usage {
        IoctlCommand::MemUsage
    } else if cmd_u == codes.task_info {
        IoctlCommand::TaskInfo
    } else if cmd_u == codes.inject_kernel_crash {
        IoctlCommand::InjectKernelCrash
    } else if cmd_u == codes.dump_fault_log {
        IoctlCommand::DumpFaultLog
    } else if cmd_u == codes.mem_data {
        IoctlCommand::MemData
    } else {
        IoctlCommand::Invalid
    }
}

/// The table is complete: every slot below `k` whose query succeeded
/// (`ret == 0`) and found a used (`unused == 0`), named process has a line,
/// whatever its usage; and a slot has a line only in that case.
pub proof fn law_usage_rows_complete(
    queries: Seq<ProcessQuery>,
    all: Seq<u32>,
    ten: Seq<u32>,
    one: Seq<u32>,
    k: int,
)
    requires
        0 <= k <= queries.len(),
        k <= 0xffff_ffff,
        all.len() == queries.len(),
        ten.len() == queries.len(),
        one.len() == queries.len(),
    ensures
        forall|i: int|
            0 <= i < k && queries[i].ret == 0 && queries[i].unused == 0 && queries[i].has_name
                ==> exists|j: int|
                0 <= j < usage_rows(queries, all, ten, one, k).len() && #[trigger] usage_rows(
                    queries,
                    all,
                    ten,
                    one,
                    k,
                )[j] == (CpuUsageRow {
                    slot: i as u32,
                    pid: queries[i].pid,
                    all: all[i],
                    ten: ten[i],
                    one: one[i],
                }),
        forall|j: int|
            0 <= j < usage_rows(queries, all, ten, one, k).len() ==> {
                let r = #[trigger] usage_rows(queries, all, ten, one, k)[j];
                &&& r.slot < k
                &&& queries[r.slot as int].ret == 0
                &&& queries[r.slot as int].unused == 0
                &&& queries[r.slot as int].has_name
            },
    decreases k,
{
    law_usage_rows_shown(queries, all, ten, one, k);
    if k > 0 {
        law_usage_rows_complete(queries, all, ten, one, k - 1);
        let prev = usage_rows(queries, all, ten, one, k - 1);
        let cur = usage_rows(queries, all, ten, one, k);
        let q = queries[k - 1];
        assert forall|i: int|
            0 <= i < k && queries[i].ret == 0 && queries[i].unused == 0 && queries[i].has_name
                implies exists|j: int| 0 <= j < cur.len() && #[trigger] cur[j] == (CpuUsageRow {
                slot: i as u32,
                pid: queries[i].pid,
                all: all[i],
                ten: ten[i],
                one: one[i],
            }) by {
            let row = CpuUsageRow {
                slot: i as u32,
                pid: queries[i].pid,
                all: all[i],
                ten: ten[i],
                one: one[i],
            };
            if i == k - 1 {
                assert(slot_shown(q));
                assert(cur[prev.len() as int] == row);
            } else {
                let j = choose|j: int| 0 <= j < prev.len() && #[trigger] prev[j] == row;
                if slot_shown(q) {
                    assert(cur[j] == prev[j]);
                } else {
                    assert(cur[j] == prev[j]);
                }
            }
        }
    }
}

/// The tables hold three entries per process and eight bytes per entry,
/// both counts saturating at the largest `u32`: the request is `24 * max`
/// bytes, or the largest `u32` when that does not fit.
pub proof fn law_alloc_size_is_saturated_product(max: u32)
    ensures
        entry_count(max) == if 3 * max <= 0xffff_ffff {
            3 * max
        } else {
            0xffff_ffff
        },
        alloc_size(max) == if 24 * max <= 0xffff_ffff {
            24 * max
        } else {
            0xffff_ffff
        },
{
}

/// An ioctl selects the first command whose code equals it, in the order
/// dump-all, CPU usage, memory usage, task info, crash injection, fault log,
/// memory data; a command that equals none is invalid.
pub proof fn law_ioctl_first_match(cmd: u32, codes: HidumperCmdCodes)
    ensures
        cmd == codes.dump_all ==> ioctl_command(cmd, codes) == IoctlCommand::DumpAll,
        cmd != codes.dump_all && cmd == codes.cpu_usage ==> ioctl_command(cmd, codes)
            == IoctlCommand::CpuUsage,
        cmd != codes.dump_all && cmd != codes.cpu_usage && cmd == codes.mem_usage
            ==> ioctl_command(cmd, codes) == IoctlCommand::MemUsage,
        cmd != codes.dump_all && cmd != codes.cpu_usage && cmd != codes.mem_usage && cmd
            == codes.task_info ==> ioctl_command(cmd, codes) == IoctlCommand::TaskInfo,
        cmd != codes.dump_all && cmd != codes.cpu_usage && cmd != codes.mem_usage && cmd
            != codes.task_info && cmd == codes.inject_kernel_crash ==> ioctl_command(cmd, codes)
            == IoctlCommand::InjectKernelCrash,
        cmd != codes.dump_all && cmd != codes.cpu_usage && cmd != codes.mem_usage && cmd
            != codes.task_info && cmd != codes.inject_kernel_crash && cmd == codes.dump_fault_log
            ==> ioctl_command(cmd, codes) == IoctlCommand::DumpFaultLog,
        cmd != codes.dump_all && cmd != codes.cpu_usage && cmd != codes.mem_usage && cmd
            != codes.task_info && cmd != codes.inject_kernel_crash && cmd != codes.dump_fault_log
            && cmd == codes.mem_data ==> ioctl_command(cmd, codes) == IoctlCommand::MemData,
        (cmd != codes.dump_all && cmd != codes.cpu_usage && cmd != codes.mem_usage && cmd
            != codes.task_info && cmd != codes.inject_kernel_crash && cmd != codes.dump_fault_log
            && cmd != codes.mem_data) <==> ioctl_command(cmd, codes) == IoctlCommand::Invalid,
{
}

} // verus!
