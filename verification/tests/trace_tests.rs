use liteos_kernel::trace::{
    be_u32, trace_agent_should_receive, trace_event_mask, trace_record_dump_allowed,
    trace_start_step, trace_stop_step, OsTraceCmdHandleRust, OsTraceCmdIsValidRust,
    TraceAction, TraceClientCmd, TraceStartStep, TRACE_STARTED, TRACE_STOPED, TRACE_UNINIT,
};

fn cmd(code: u8, end: u8) -> TraceClientCmd {
    TraceClientCmd { cmd: code, param1: 0x12, param2: 0x34, param3: 0x56, param4: 0x78, param5: 9, end }
}

#[test]
fn command_validity() {
    assert_eq!(OsTraceCmdIsValidRust(Some(&cmd(1, 0x0d))), 1);
    assert_eq!(OsTraceCmdIsValidRust(Some(&cmd(0, 0x0d))), 1);
    assert_eq!(OsTraceCmdIsValidRust(Some(&cmd(4, 0x0d))), 1);
    assert_eq!(OsTraceCmdIsValidRust(Some(&cmd(5, 0x0d))), 0);
    assert_eq!(OsTraceCmdIsValidRust(Some(&cmd(1, 0x0a))), 0);
    assert_eq!(OsTraceCmdIsValidRust(None), 0);
}

#[test]
fn command_actions() {
    assert_eq!(OsTraceCmdHandleRust(Some(&cmd(1, 0x0d))), TraceAction::Start);
    assert_eq!(OsTraceCmdHandleRust(Some(&cmd(2, 0x0d))), TraceAction::Stop);
    assert_eq!(
        OsTraceCmdHandleRust(Some(&cmd(3, 0x0d))),
        TraceAction::SetEventMask(0x1234_5678)
    );
    assert_eq!(OsTraceCmdHandleRust(Some(&cmd(4, 0x0d))), TraceAction::RecordDump);
    assert_eq!(OsTraceCmdHandleRust(Some(&cmd(0, 0x0d))), TraceAction::Ignore);
    assert_eq!(OsTraceCmdHandleRust(Some(&cmd(3, 0x00))), TraceAction::Ignore);
    assert_eq!(OsTraceCmdHandleRust(None), TraceAction::Ignore);
}

#[test]
fn mask_bytes_join_big_endian() {
    assert_eq!(be_u32(0xff, 0, 0, 1), 0xff00_0001);
    assert_eq!(be_u32(0, 0, 0, 0), 0);
}

#[test]
fn event_mask_clears_low_bits() {
    assert_eq!(trace_event_mask(0xffff_ffff), 0xffff_fff0);
    assert_eq!(trace_event_mask(0x1f), 0x10);
    assert_eq!(trace_event_mask(0x0f), 0);
}

#[test]
fn agent_receives_only_after_wait_succeeds() {
    assert!(trace_agent_should_receive(0));
    assert!(!trace_agent_should_receive(1));
}

#[test]
fn start_steps() {
    assert_eq!(trace_start_step(TRACE_STARTED), TraceStartStep::AlreadyStarted);
    assert_eq!(trace_start_step(TRACE_UNINIT), TraceStartStep::NotInitialized);
    assert_eq!(trace_start_step(TRACE_STOPED), TraceStartStep::Begin { state: TRACE_STARTED });
    assert_eq!(trace_start_step(1), TraceStartStep::Begin { state: TRACE_STARTED });
}

#[test]
fn stop_steps() {
    assert_eq!(trace_stop_step(TRACE_STARTED), Some(TRACE_STOPED));
    assert_eq!(trace_stop_step(TRACE_STOPED), None);
    assert_eq!(trace_stop_step(TRACE_UNINIT), None);
}

#[test]
fn start_stop_then_dump() {
    let started = match trace_start_step(TRACE_STOPED) {
        TraceStartStep::Begin { state } => state,
        _ => unreachable!(),
    };
    assert!(!trace_record_dump_allowed(started));
    assert_eq!(trace_start_step(started), TraceStartStep::AlreadyStarted);
    let stopped = trace_stop_step(started).unwrap();
    assert!(trace_record_dump_allowed(stopped));
}

#[test]
fn uninitialized_trace_stays() {
    assert!(!trace_record_dump_allowed(TRACE_UNINIT));
    assert_eq!(trace_stop_step(TRACE_UNINIT), None);
}
