use liteos_kernel::blackbox::{
    basic_info_accepted, empty_error_info, error_info_record, fault_log_plan,
    full_write_accepted, last_log_accepted, last_log_payload_len, log_flag_ok,
    new_dir_needs_mkdir, new_dir_result, save_without_reset_accepted, write_all_step,
    BlackboxCreateLogDirRust, BlackboxFormatErrorInfoRust, BlackboxGetLastLogInfoRust,
    BlackboxIsLogPartReadyRust, ErrorInfo, FaultLogInfo, FAULT_LOG_INFO_SIZE,
};

fn text_of(buf: &[u8]) -> &[u8] {
    let n = buf.iter().position(|&b| b == 0).unwrap_or(buf.len());
    &buf[..n]
}

fn formatted(event: &[u8], module: &[u8], desc: &[u8]) -> ErrorInfo {
    let mut info = empty_error_info();
    BlackboxFormatErrorInfoRust(&mut info, Some(event), Some(module), Some(desc));
    info
}

fn header(flag: &[u8; 8], len: i32) -> FaultLogInfo {
    FaultLogInfo { flag: *flag, len, info: formatted(b"panic\0", b"kernel\0", b"oops\0") }
}

#[test]
fn format_error_info_stores_strings() {
    let info = formatted(b"panic\0", b"kernel\0", b"null deref\0");
    assert_eq!(text_of(&info.event), b"panic");
    assert_eq!(text_of(&info.module), b"kernel");
    assert_eq!(text_of(&info.error_desc), b"null deref");
    assert!(info.event[5..].iter().all(|&b| b == 0));
}

#[test]
fn format_error_info_truncates_long_event() {
    let long = [b'e'; 40];
    let info = formatted(&long, b"m\0", b"d\0");
    assert_eq!(text_of(&info.event), &[b'e'; 31][..]);
    assert_eq!(info.event[31], 0);
}

#[test]
fn format_error_info_with_missing_string_leaves_record() {
    let mut info = formatted(b"a\0", b"b\0", b"c\0");
    BlackboxFormatErrorInfoRust(&mut info, Some(b"x\0"), None, Some(b"z\0"));
    assert_eq!(text_of(&info.event), b"a");
    assert_eq!(text_of(&info.module), b"b");
    assert_eq!(text_of(&info.error_desc), b"c");
}

#[test]
fn log_part_ready_is_zero_or_one() {
    assert_eq!(BlackboxIsLogPartReadyRust(5), 1);
    assert_eq!(BlackboxIsLogPartReadyRust(-1), 1);
    assert_eq!(BlackboxIsLogPartReadyRust(0), 0);
}

#[test]
fn flag_checks_first_seven_bytes() {
    assert!(log_flag_ok(b"GOODLOG\0"));
    assert!(log_flag_ok(b"GOODLOGx"));
    assert!(!log_flag_ok(b"GOODLOX\0"));
    assert!(!log_flag_ok(&[0u8; 8]));
}

#[test]
fn last_log_info_copied_when_marked() {
    let h = header(b"GOODLOG\0", 3);
    let (code, info) = BlackboxGetLastLogInfoRust(Some(&h), true);
    assert_eq!(code, 0);
    assert_eq!(text_of(&info.unwrap().event), b"panic");
}

#[test]
fn last_log_info_refused() {
    let h = header(b"BADLOG\0\0", 3);
    assert_eq!(BlackboxGetLastLogInfoRust(Some(&h), true).0, -1);
    assert!(BlackboxGetLastLogInfoRust(Some(&h), true).1.is_none());
    let g = header(b"GOODLOG\0", 3);
    assert_eq!(BlackboxGetLastLogInfoRust(Some(&g), false).0, -1);
    assert_eq!(BlackboxGetLastLogInfoRust(None, true).0, -1);
}

#[test]
fn last_log_acceptance() {
    assert!(last_log_accepted(true, true, true, FAULT_LOG_INFO_SIZE));
    assert!(!last_log_accepted(true, true, true, FAULT_LOG_INFO_SIZE - 1));
    assert!(!last_log_accepted(false, true, true, 4096));
    assert!(!last_log_accepted(true, false, true, 4096));
    assert!(!last_log_accepted(true, true, false, 4096));
}

#[test]
fn last_log_payload_lengths() {
    assert_eq!(last_log_payload_len(588 + 100, &header(b"GOODLOG\0", 40)), Some(40));
    assert_eq!(last_log_payload_len(588 + 100, &header(b"GOODLOG\0", 400)), Some(100));
    assert_eq!(last_log_payload_len(588 + 100, &header(b"GOODLOG\0", 0)), Some(0));
    assert_eq!(last_log_payload_len(588 + 100, &header(b"GOODLOG\0", -5)), Some(0));
    assert_eq!(last_log_payload_len(588, &header(b"GOODLOG\0", 5)), Some(0));
    assert_eq!(last_log_payload_len(588 + 100, &header(b"NOPE\0\0\0\0", 40)), None);
}

#[test]
fn fault_log_plans() {
    assert_eq!(fault_log_plan(true, true, true, 10), Some(true));
    assert_eq!(fault_log_plan(true, true, true, 0), Some(false));
    assert_eq!(fault_log_plan(true, true, false, 10), Some(false));
    assert_eq!(fault_log_plan(false, true, true, 10), None);
    assert_eq!(fault_log_plan(true, false, true, 10), None);
}

#[test]
fn acceptance_checks() {
    assert!(full_write_accepted(true, true, 1));
    assert!(!full_write_accepted(true, true, 0));
    assert!(!full_write_accepted(false, true, 1));
    assert!(basic_info_accepted(true, true));
    assert!(!basic_info_accepted(true, false));
    assert!(save_without_reset_accepted(true, true, true));
    assert!(!save_without_reset_accepted(true, false, true));
}

#[test]
fn write_all_steps() {
    assert_eq!(write_all_step(10, 4), Some(6));
    assert_eq!(write_all_step(6, 6), Some(0));
    assert_eq!(write_all_step(6, 0), None);
    assert_eq!(write_all_step(6, -1), None);
}

#[test]
fn error_record_pieces() {
    let info = formatted(b"panic\0", b"kernel\0", b"oops\0");
    let pieces = error_info_record(&info);
    let joined: Vec<u8> = pieces.concat();
    assert_eq!(pieces.len(), 8);
    assert_eq!(
        joined,
        b"#### error info ####\nevent: panic\nmodule: kernel\nerrorDesc: oops\n".to_vec()
    );
}

#[test]
fn new_dir_decisions() {
    assert!(!new_dir_needs_mkdir(0));
    assert!(new_dir_needs_mkdir(-1));
    assert_eq!(new_dir_result(0), 0);
    assert_eq!(new_dir_result(-17), -1);
}

#[test]
fn log_dir_plan_makes_parents_first() {
    let plan = BlackboxCreateLogDirRust(Some(b"/a/bb/c\0")).unwrap();
    assert!(plan.fits);
    assert_eq!(plan.dirs, vec![b"/a".to_vec(), b"/a/bb".to_vec(), b"/a/bb/c".to_vec()]);
}

#[test]
fn log_dir_plan_with_trailing_slash() {
    let plan = BlackboxCreateLogDirRust(Some(b"/log/\0")).unwrap();
    assert_eq!(plan.dirs, vec![b"/log".to_vec(), b"/log/".to_vec()]);
}

#[test]
fn log_dir_plan_root_only() {
    let plan = BlackboxCreateLogDirRust(Some(b"/\0")).unwrap();
    assert_eq!(plan.dirs, vec![b"/".to_vec()]);
}

#[test]
fn log_dir_plan_refuses_relative_and_null() {
    assert!(BlackboxCreateLogDirRust(Some(b"a/b\0")).is_none());
    assert!(BlackboxCreateLogDirRust(Some(b"\0")).is_none());
    assert!(BlackboxCreateLogDirRust(Some(b"")).is_none());
    assert!(BlackboxCreateLogDirRust(None).is_none());
}

#[test]
fn log_dir_plan_too_long() {
    let mut path = vec![b'/'];
    path.extend(std::iter::repeat(b'x').take(100));
    path.push(b'/');
    path.extend(std::iter::repeat(b'y').take(200));
    let plan = BlackboxCreateLogDirRust(Some(&path)).unwrap();
    assert!(!plan.fits);
    assert_eq!(plan.dirs, vec![path[..101].to_vec()]);
}

#[test]
fn log_dir_plan_just_fits() {
    let mut path = vec![b'/'];
    path.extend(std::iter::repeat(b'z').take(254));
    let plan = BlackboxCreateLogDirRust(Some(&path)).unwrap();
    assert!(plan.fits);
    assert_eq!(plan.dirs, vec![path.clone()]);
    path.push(b'z');
    let plan = BlackboxCreateLogDirRust(Some(&path)).unwrap();
    assert!(!plan.fits);
    assert!(plan.dirs.is_empty());
}
