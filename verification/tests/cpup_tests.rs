use liteos_kernel::cpup::{
    cpup_after_pid_check, cpup_command, format_pid_usage, format_sys_usage, format_unknown_pid,
    parse_u32_base0, pid_usage_infix_text, sys_usage_prefix_text, CpupStep,
};
use liteos_kernel::fmt::write_u32;

fn text_of(buf: &[u8]) -> &[u8] {
    let n = buf.iter().position(|&b| b == 0).unwrap_or(buf.len());
    &buf[..n]
}

fn rest_is_zero(buf: &[u8]) -> bool {
    let n = text_of(buf).len();
    buf[n..].iter().all(|&b| b == 0)
}

#[test]
fn parse_decimal() {
    assert_eq!(parse_u32_base0(Some(b"12\0")), Ok(12));
    assert_eq!(parse_u32_base0(Some(b"4294967295\0")), Ok(u32::MAX));
    assert_eq!(parse_u32_base0(Some(b"7")), Ok(7));
}

#[test]
fn parse_hex_and_octal() {
    assert_eq!(parse_u32_base0(Some(b"0x1F\0")), Ok(31));
    assert_eq!(parse_u32_base0(Some(b"0X1f\0")), Ok(31));
    assert_eq!(parse_u32_base0(Some(b"0xFFFFFFFF\0")), Ok(u32::MAX));
    assert_eq!(parse_u32_base0(Some(b"017\0")), Ok(15));
    assert_eq!(parse_u32_base0(Some(b"00\0")), Ok(0));
}

#[test]
fn parse_single_zero() {
    assert_eq!(parse_u32_base0(Some(b"0\0")), Ok(0));
}

#[test]
fn parse_rejects_bad_digits() {
    assert_eq!(parse_u32_base0(Some(b"08\0")), Err(()));
    assert_eq!(parse_u32_base0(Some(b"12a\0")), Err(()));
    assert_eq!(parse_u32_base0(Some(b"abc\0")), Err(()));
    assert_eq!(parse_u32_base0(Some(b"0xG\0")), Err(()));
    assert_eq!(parse_u32_base0(Some(b"-1\0")), Err(()));
    assert_eq!(parse_u32_base0(Some(b" 1\0")), Err(()));
}

#[test]
fn parse_rejects_empty_and_null() {
    assert_eq!(parse_u32_base0(Some(b"\0")), Err(()));
    assert_eq!(parse_u32_base0(Some(b"")), Err(()));
    assert_eq!(parse_u32_base0(Some(b"0x\0")), Err(()));
    assert_eq!(parse_u32_base0(None), Err(()));
}

#[test]
fn parse_rejects_overflow() {
    assert_eq!(parse_u32_base0(Some(b"4294967296\0")), Err(()));
    assert_eq!(parse_u32_base0(Some(b"0x100000000\0")), Err(()));
    assert_eq!(parse_u32_base0(Some(b"99999999999999999999\0")), Err(()));
}

#[test]
fn parse_stops_at_terminator() {
    assert_eq!(parse_u32_base0(Some(b"42\0junk")), Ok(42));
}

#[test]
fn parse_reads_back_written_decimal() {
    for v in [0u32, 5, 10, 99, 1234, 65535, 4294967295] {
        let mut buf = [0u8; 16];
        write_u32(&mut buf, 0, v);
        assert_eq!(parse_u32_base0(Some(&buf)), Ok(v));
    }
}

#[test]
fn sys_usage_line_ten_seconds() {
    let buf = format_sys_usage(0, 1234, 100);
    assert_eq!(text_of(&buf), b"\nSysCpuUsage in 10s: 12.34\n");
    assert!(rest_is_zero(&buf));
}

#[test]
fn sys_usage_line_other_modes() {
    let buf = format_sys_usage(1, 5, 10);
    assert_eq!(text_of(&buf), b"\nSysCpuUsage in 1s: 0.5\n");
    let buf = format_sys_usage(0xffff, 1205, 100);
    assert_eq!(text_of(&buf), b"\nSysCpuUsage in all time: 12.5\n");
    let buf = format_sys_usage(7, u32::MAX, 1);
    assert_eq!(text_of(&buf), b"\nSysCpuUsage in all time: 4294967295.0\n");
}

#[test]
fn pid_usage_line() {
    let buf = format_pid_usage(1, 17, 250, 100);
    assert_eq!(text_of(&buf), b"\npid 17 CpuUsage in 1s: 2.50\n");
    assert!(rest_is_zero(&buf));
    let buf = format_pid_usage(0xffff, u32::MAX, u32::MAX, 3);
    assert_eq!(
        text_of(&buf),
        b"\npid 4294967295 CpuUsage in all time: 1431655765.0\n"
    );
}

#[test]
fn unknown_pid_line() {
    let buf = format_unknown_pid(99);
    assert_eq!(text_of(&buf), b"\nUnknown pid: 99\n");
    assert!(rest_is_zero(&buf));
    assert_eq!(buf.len(), 64);
}

#[test]
fn usage_texts_by_mode() {
    assert_eq!(sys_usage_prefix_text(0), b"\nSysCpuUsage in 10s: ".to_vec());
    assert_eq!(sys_usage_prefix_text(1), b"\nSysCpuUsage in 1s: ".to_vec());
    assert_eq!(sys_usage_prefix_text(2), b"\nSysCpuUsage in all time: ".to_vec());
    assert_eq!(pid_usage_infix_text(0), b" CpuUsage in 10s: ".to_vec());
    assert_eq!(pid_usage_infix_text(1), b" CpuUsage in 1s: ".to_vec());
    assert_eq!(pid_usage_infix_text(9), b" CpuUsage in all time: ".to_vec());
}

#[test]
fn cpup_without_arguments_reports_ten_seconds() {
    assert_eq!(cpup_command(0, true, None, None), CpupStep::SysUsage { mode: 0 });
    assert_eq!(cpup_command(-3, false, None, None), CpupStep::SysUsage { mode: 0 });
}

#[test]
fn cpup_without_argv_does_nothing() {
    assert_eq!(cpup_command(1, false, None, None), CpupStep::Nothing);
}

#[test]
fn cpup_help_flags() {
    assert_eq!(cpup_command(1, true, Some(b"-h\0"), None), CpupStep::Help);
    assert_eq!(cpup_command(3, true, Some(b"--help\0"), Some(b"1\0")), CpupStep::Help);
}

#[test]
fn cpup_unknown_mode() {
    assert_eq!(cpup_command(1, true, Some(b"zz\0"), None), CpupStep::UnknownMode);
    assert_eq!(cpup_command(2, true, None, Some(b"1\0")), CpupStep::UnknownMode);
}

#[test]
fn cpup_mode_only() {
    assert_eq!(cpup_command(1, true, Some(b"1\0"), None), CpupStep::SysUsage { mode: 1 });
    assert_eq!(
        cpup_command(1, true, Some(b"70000\0"), None),
        CpupStep::SysUsage { mode: 0xffff }
    );
    assert_eq!(cpup_command(1, true, Some(b"0x10\0"), None), CpupStep::SysUsage { mode: 16 });
}

#[test]
fn cpup_unknown_pid_argument() {
    assert_eq!(cpup_command(2, true, Some(b"1\0"), Some(b"p\0")), CpupStep::UnknownPid);
    assert_eq!(cpup_command(2, true, Some(b"1\0"), None), CpupStep::UnknownPid);
}

#[test]
fn cpup_checks_pid() {
    assert_eq!(
        cpup_command(2, true, Some(b"0\0"), Some(b"12\0")),
        CpupStep::CheckPid { mode: 0, pid: 12 }
    );
}

#[test]
fn cpup_after_pid_check_cases() {
    assert_eq!(cpup_after_pid_check(2, 0, 12, 0), CpupStep::InvalidPid { pid: 12 });
    assert_eq!(cpup_after_pid_check(2, 1, 12, 1), CpupStep::PidUsage { mode: 1, pid: 12 });
    assert_eq!(cpup_after_pid_check(3, 1, 12, 1), CpupStep::Help);
    assert_eq!(cpup_after_pid_check(3, 1, 12, 0), CpupStep::InvalidPid { pid: 12 });
}

#[test]
fn other_modes_report_all_time() {
    for (arg, expected) in [(&b"2\0"[..], 2u16), (&b"99999\0"[..], 0xffff)] {
        let step = cpup_command(1, true, Some(arg), None);
        assert_eq!(step, CpupStep::SysUsage { mode: expected });
        let buf = format_sys_usage(expected, 100, 100);
        assert_eq!(text_of(&buf), b"\nSysCpuUsage in all time: 1.0\n");
    }
}
