//! The trace agent: commands from the trace client, and the start, stop and
//! dump rules of the trace state.
use vstd::prelude::*;

verus! {

/// The byte that ends every client command.
pub const TRACE_CMD_END_CHAR: u8 = 0x0d;

pub const TRACE_CMD_START: u8 = 1;

pub const TRACE_CMD_STOP: u8 = 2;

pub const TRACE_CMD_SET_EVENT_MASK: u8 = 3;

pub const TRACE_CMD_RECODE_DUMP: u8 = 4;

/// Command codes from here up are unknown.
pub const TRACE_CMD_MAX_CODE: u8 = 5;

pub const LOS_OK: u32 = 0;

pub const TRACE_UNINIT: u32 = 0;

pub const TRACE_STARTED: u32 = 2;

pub const TRACE_STOPED: u32 = 3;

/// The event bits a mask may set; the low four bits are reserved.
pub const TRACE_EVENT_MASK: u32 = 0xFFFF_FFF0;

/// A command as the trace client sends it, byte by byte.
#[derive(Copy, Clone, Debug, PartialEq, Eq, Structural)]
pub struct TraceClientCmd {
    pub cmd: u8,
    pub param1: u8,
    pub param2: u8,
    pub param3: u8,
    pub param4: u8,
    pub param5: u8,
    pub end: u8,
}

/// A command is valid when it ends with the end byte and its code is known.
pub open spec fn cmd_valid(msg: Option<TraceClientCmd>) -> bool {
    match msg {
        Some(m) => m.end == TRACE_CMD_END_CHAR && m.cmd < TRACE_CMD_MAX_CODE,
        None => false,
    }
}

/// Whether the client command is valid: `1` when it is, `0` when it is not or
/// is missing.
pub fn OsTraceCmdIsValidRust(msg: Option<&TraceClientCmd>) -> (r: u32)
    ensures
        r == (if cmd_valid(match msg {
            Some(m) => Some(*m),
            None => None,
        }) {
            1u32
        } else {
            0u32
        }),
{
    match msg {
        None => 0,
        Some(m) => {
            if m.end != TRACE_CMD_END_CHAR {
                return 0;
            }
            if m.cmd >= TRACE_CMD_MAX_CODE {
                return 0;
            }
            1
        },
    }
}

/// What the trace agent does with a client command.
#[derive(Copy, Clone, Debug, PartialEq, Eq, Structural)]
pub enum TraceAction {
    /// Nothing: the command is invalid or asks for nothing.
    Ignore,
    /// Start tracing.
    Start,
    /// Stop tracing.
    Stop,
    /// Set the event mask to the value.
    SetEventMask(u32),
    /// Dump the trace records to the client.
    RecordDump,
}

/// The mask that a set-mask command carries: its first four parameters, most
/// significant first.
pub open spec fn cmd_mask(m: TraceClientCmd) -> int {
    m.param1 * 0x100_0000 + m.param2 * 0x1_0000 + m.param3 * 0x100 + m.param4
}

/// The action that a client command asks for.
pub open spec fn cmd_action(msg: Option<TraceClientCmd>) -> TraceAction {
    if !cmd_valid(msg) {
        TraceAction::Ignore
    } else {
        let m = msg.unwrap();
        if m.cmd == TRACE_CMD_START {
            TraceAction::Start
        } else if m.cmd == TRACE_CMD_STOP {
            TraceAction::Stop
        } else if m.cmd == TRACE_CMD_SET_EVENT_MASK {
            TraceAction::SetEventMask(cmd_mask(m) as u32)
        } else if m.cmd == TRACE_CMD_RECODE_DUMP {
            TraceAction::RecordDump
        } else {
            TraceAction::Ignore
        }
    }
}

/// Joins four bytes into a 32-bit number, the first the most significant.
pub fn be_u32(p1: u8, p2: u8, p3: u8, p4: u8) -> (r: u32)
    ensures
        r == p1 * 0x100_0000 + p2 * 0x1_0000 + p3 * 0x100 + p4,
{
    let a = p1 as u32;
    let b = p2 as u32;
    let c = p3 as u32;
    let d = p4 as u32;
    let r = (a << 24) | (b << 16) | (c << 8) | d;
    assert(r == a * 0x100_0000 + b * 0x1_0000 + c * 0x100 + d) by (bit_vector)
        requires
            a < 256,
            b < 256,
            c < 256,
            d < 256,
            r == (a << 24) | (b << 16) | (c << 8) | d,
    ;
    r
}

/// Decides what a client command asks for.
pub fn OsTraceCmdHandleRust(msg: Option<&TraceClientCmd>) -> (a: TraceAction)
    ensures
        a == cmd_action(
            match msg {
                Some(m) => Some(*m),
                None => None,
            },
        ),
{
    if OsTraceCmdIsValidRust(msg) == 0 {
        return TraceAction::Ignore;
    }
    let m = match msg {
        Some(m) => m,
        None => {
            return TraceAction::Ignore;
        },
    };
    if m.cmd == TRACE_CMD_START {
        TraceAction::Start
    } else if m.cmd == TRACE_CMD_STOP {
        TraceAction::Stop
    } else if m.cmd == TRACE_CMD_SET_EVENT_MASK {
        TraceAction::SetEventMask(be_u32(m.param1, m.param2, m.param3, m.param4))
    } else if m.cmd == TRACE_CMD_RECODE_DUMP {
        TraceAction::RecordDump
    } else {
        TraceAction::Ignore
    }
}

/// The agent reads a command only when waiting for one succeeded.
pub fn trace_agent_should_receive(wait_ret: u32) -> (r: bool)
    ensures
        r == (wait_ret == LOS_OK),
{
    wait_ret == LOS_OK
}

/// What starting the trace does, by the trace's state.
#[derive(Copy, Clone, Debug, PartialEq, Eq, Structural)]
pub enum TraceStartStep {
    /// The trace runs already: nothing changes and the start succeeds.
    AlreadyStarted,
    /// The trace was never set up: the start fails with the trace error status.
    NotInitialized,
    /// The trace starts: it is enabled and its state becomes `state`.
    Begin { state: u32 },
}

/// The start step for a trace in `state`.
pub open spec fn start_step(state: u32) -> TraceStartStep {
    if state == TRACE_STARTED {
        TraceStartStep::AlreadyStarted
    } else if state == TRACE_UNINIT {
        TraceStartStep::NotInitialized
    } else {
        TraceStartStep::Begin { state: TRACE_STARTED }
    }
}

/// Decides what starting the trace does in `state`.
pub fn trace_start_step(state: u32) -> (s: TraceStartStep)
    ensures
        s == start_step(state),
{
    if state == TRACE_STARTED {
        return TraceStartStep::AlreadyStarted;
    }
    if state == TRACE_UNINIT {
        return TraceStartStep::NotInitialized;
    }
    TraceStartStep::Begin { state: TRACE_STARTED }
}

/// The state that stopping a trace in `state` leaves, if it changes it: only a
/// started trace stops.
pub open spec fn stop_step(state: u32) -> Option<u32> {
    if state == TRACE_STARTED {
        Some(TRACE_STOPED)
    } else {
        None
    }
}

/// Decides what stopping the trace does in `state`: `Some` of the new state
/// when the trace stops (it is then disabled), `None` when nothing changes.
pub fn trace_stop_step(state: u32) -> (s: Option<u32>)
    ensures
        s == stop_step(state),
{
    if state != TRACE_STARTED {
        return None;
    }
    Some(TRACE_STOPED)
}

/// The event mask that is set for a requested `mask`: its reserved low four
/// bits cleared.
pub fn trace_event_mask(mask: u32) -> (m: u32)
    ensures
        m == mask - mask % 16,
{
    let m = mask & TRACE_EVENT_MASK;
    assert(m == mask - mask % 16) by (bit_vector)
        requires
            m == mask & 0xFFFF_FFF0u32,
    ;
    m
}

/// Records are dumped only from a stopped trace.
pub open spec fn dump_allowed(state: u32) -> bool {
    state == TRACE_STOPED
}

/// Whether the records may be dumped in `state`; otherwise the state is logged.
pub fn trace_record_dump_allowed(state: u32) -> (r: bool)
    ensures
        r == dump_allowed(state),
{
    state == TRACE_STOPED
}

/// The state a trace is in after a start from `state`.
pub open spec fn state_after_start(state: u32) -> u32 {
    match start_step(state) {
        TraceStartStep::Begin { state: s } => s,
        _ => state,
    }
}

/// The state a trace is in after a stop from `state`.
pub open spec fn state_after_stop(state: u32) -> u32 {
    match stop_step(state) {
        Some(s) => s,
        None => state,
    }
}

/// Starting is idempotent: a second start changes nothing, and once started
/// (from any state but the uninitialized one) the trace is started.
pub proof fn law_start_idempotent(state: u32)
    requires
        state != TRACE_UNINIT,
    ensures
        state_after_start(state) == TRACE_STARTED,
        start_step(state_after_start(state)) == TraceStartStep::AlreadyStarted,
        state_after_start(state_after_start(state)) == state_after_start(state),
{
}

/// A started and then stopped trace is stopped, and its records can be dumped;
/// a running trace's records cannot.
pub proof fn law_start_stop_then_dump(state: u32)
    requires
        state != TRACE_UNINIT,
    ensures
        !dump_allowed(state_after_start(state)),
        state_after_stop(state_after_start(state)) == TRACE_STOPED,
        dump_allowed(state_after_stop(state_after_start(state))),
{
}

/// A trace that was never set up stays so: start fails, stop and dump do nothing.
pub proof fn law_uninitialized_trace_stays(state: u32)
    requires
        state == TRACE_UNINIT,
    ensures
        start_step(state) == TraceStartStep::NotInitialized,
        state_after_start(state) == TRACE_UNINIT,
        state_after_stop(state) == TRACE_UNINIT,
        !dump_allowed(state),
{
}

/// Stopping a trace that does not run changes nothing.
pub proof fn law_stop_only_when_started(state: u32)
    requires
        state != TRACE_STARTED,
    ensures
        stop_step(state) == None::<u32>,
        state_after_stop(state) == state,
{
}

/// Records are dumped from a stopped trace (state 3) and from no other state:
/// not from an uninitialized (0), set-up but never started (1) or running (2)
/// trace, nor from any other state number.
pub proof fn law_dump_only_when_stopped(state: u32)
    ensures
        dump_allowed(state) <==> state == 3,
{
}

/// Starting a trace: a running trace (state 2) stays running and the start
/// succeeds; an uninitialized one (state 0) refuses; any other state begins
/// running, in state 2.
pub proof fn law_start_by_state(state: u32)
    ensures
        state == 2 <==> start_step(state) == TraceStartStep::AlreadyStarted,
        state == 0 <==> start_step(state) == TraceStartStep::NotInitialized,
        state != 0 && state != 2 ==> start_step(state) == (TraceStartStep::Begin { state: 2 }),
{
}

/// Stopping a trace: only a running trace (state 2) stops, and it becomes
/// stopped (state 3).
pub proof fn law_stop_by_state(state: u32)
    ensures
        state == 2 ==> stop_step(state) == Some(3u32),
        state != 2 ==> stop_step(state) is None,
{
}

/// A client command is acted on only when it ends with `0x0d` and its code is
/// below 5; then code 1 starts, 2 stops, 4 dumps to the client, 0 does nothing.
pub proof fn law_command_actions(m: TraceClientCmd)
    ensures
        (m.end != 0x0d || m.cmd >= 5) ==> cmd_action(Some(m)) == TraceAction::Ignore,
        cmd_action(None) == TraceAction::Ignore,
        (m.end == 0x0d && m.cmd == 0) ==> cmd_action(Some(m)) == TraceAction::Ignore,
        (m.end == 0x0d && m.cmd == 1) ==> cmd_action(Some(m)) == TraceAction::Start,
        (m.end == 0x0d && m.cmd == 2) ==> cmd_action(Some(m)) == TraceAction::Stop,
        (m.end == 0x0d && m.cmd == 4) ==> cmd_action(Some(m)) == TraceAction::RecordDump,
{
}

/// A set-mask command sets the mask to its four parameter bytes joined, the
/// first the most significant: `param1 * 2^24 + param2 * 2^16 + param3 * 2^8 +
/// param4`; the fifth parameter plays no part.
pub proof fn law_set_mask_joins_params(m: TraceClientCmd)
    requires
        m.end == 0x0d,
        m.cmd == 3,
    ensures
        cmd_action(Some(m)) matches TraceAction::SetEventMask(mask) && mask as int == m.param1
            * 0x100_0000 + m.param2 * 0x1_0000 + m.param3 * 0x100 + m.param4,
        cmd_action(Some(m)) == cmd_action(Some(TraceClientCmd { param5: 0, ..m })),
{
    assert(m.param1 * 0x100_0000 + m.param2 * 0x1_0000 + m.param3 * 0x100 + m.param4
        <= 0xffff_ffff) by (nonlinear_arith)
        requires
            m.param1 < 256,
            m.param2 < 256,
            m.param3 < 256,
            m.param4 < 256,
    ;
}

} // verus!
