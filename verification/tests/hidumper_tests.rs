use liteos_kernel::hidumper::{
    cpu_usage_alloc_size, cpu_usage_entry_count, cpu_usage_queries_ok, cpu_usage_row, cpu_usage_rows,
    cpu_usage_table_len, dump_chunk_len, CpuUsageRow, HiDumperIoctlRust, HidumperCmdCodes,
    IoctlCommand, ProcessQuery,
};

fn codes() -> HidumperCmdCodes {
    HidumperCmdCodes {
        dump_all: 1,
        cpu_usage: 2,
        mem_usage: 3,
        task_info: 4,
        inject_kernel_crash: 5,
        dump_fault_log: 6,
        mem_data: 7,
    }
}

fn query(ret: i32, pid: u32, unused: u8, has_name: bool) -> ProcessQuery {
    ProcessQuery { ret, pid, unused, has_name }
}

#[test]
fn alloc_size_of_tables() {
    assert_eq!(cpu_usage_alloc_size(64), 64 * 3 * 8);
    assert_eq!(cpu_usage_alloc_size(0), 0);
    assert_eq!(cpu_usage_alloc_size(0x0fff_ffff), u32::MAX);
    assert_eq!(cpu_usage_alloc_size(u32::MAX), u32::MAX);
}

#[test]
fn table_len_of_tables() {
    assert_eq!(cpu_usage_table_len(64), 512);
    assert_eq!(cpu_usage_table_len(0x2000_0000), 0);
    assert_eq!(cpu_usage_table_len(0x2000_0001), 8);
}

#[test]
fn queries_ok_only_when_all_succeed() {
    assert!(cpu_usage_queries_ok(0, 0, 0));
    assert!(!cpu_usage_queries_ok(0, 1, 0));
    assert!(!cpu_usage_queries_ok(2, 0, 0));
}

#[test]
fn row_for_named_process() {
    assert_eq!(
        cpu_usage_row(3, &query(0, 33, 0, true), 10, 20, 30),
        Some(CpuUsageRow { slot: 3, pid: 33, all: 10, ten: 20, one: 30 })
    );
    assert_eq!(cpu_usage_row(3, &query(-1, 33, 0, true), 10, 20, 30), None);
    assert_eq!(cpu_usage_row(3, &query(0, 33, 1, true), 10, 20, 30), None);
    assert_eq!(cpu_usage_row(3, &query(0, 33, 0, false), 10, 20, 30), None);
}

#[test]
fn rows_in_slot_order() {
    let queries = vec![query(0, 0, 0, true), query(0, 1, 1, true), query(0, 7, 0, true)];
    let rows = cpu_usage_rows(&queries, &vec![1, 2, 3], &vec![4, 5, 6], &vec![7, 8, 9]);
    assert_eq!(
        rows,
        vec![
            CpuUsageRow { slot: 0, pid: 0, all: 1, ten: 4, one: 7 },
            CpuUsageRow { slot: 2, pid: 7, all: 3, ten: 6, one: 9 },
        ]
    );
}

#[test]
fn dump_chunks() {
    assert_eq!(dump_chunk_len(0), None);
    assert_eq!(dump_chunk_len(-1), None);
    assert_eq!(dump_chunk_len(127), Some(127));
}

#[test]
fn ioctl_dispatch() {
    assert_eq!(HiDumperIoctlRust(1, &codes()), IoctlCommand::DumpAll);
    assert_eq!(HiDumperIoctlRust(2, &codes()), IoctlCommand::CpuUsage);
    assert_eq!(HiDumperIoctlRust(3, &codes()), IoctlCommand::MemUsage);
    assert_eq!(HiDumperIoctlRust(4, &codes()), IoctlCommand::TaskInfo);
    assert_eq!(HiDumperIoctlRust(5, &codes()), IoctlCommand::InjectKernelCrash);
    assert_eq!(HiDumperIoctlRust(6, &codes()), IoctlCommand::DumpFaultLog);
    assert_eq!(HiDumperIoctlRust(7, &codes()), IoctlCommand::MemData);
    assert_eq!(HiDumperIoctlRust(8, &codes()), IoctlCommand::Invalid);
}

#[test]
fn ioctl_reads_negative_command_as_bits() {
    let mut c = codes();
    c.mem_data = 0xffff_ffff;
    assert_eq!(HiDumperIoctlRust(-1, &c), IoctlCommand::MemData);
}

#[test]
fn ioctl_first_matching_code_wins() {
    let mut c = codes();
    c.task_info = 2;
    assert_eq!(HiDumperIoctlRust(2, &c), IoctlCommand::CpuUsage);
}

#[test]
fn entry_count_saturates() {
    assert_eq!(cpu_usage_entry_count(10), 30);
    assert_eq!(cpu_usage_entry_count(0x5555_5555), 0xffff_ffff);
    assert_eq!(cpu_usage_entry_count(0x5555_5556), 0xffff_ffff);
}
