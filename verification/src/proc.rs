use vstd::prelude::*;

verus! {

/// Signal sent first when stopping a process; escalation always uses an
/// unconditional kill.
#[derive(Clone, Copy, Debug, PartialEq, Eq, Structural)]
pub enum StopSignal {
    Interrupt,
    Terminate,
    HangUp,
    ForceKill,
}

/// How a process is stopped: a first signal, then an unconditional kill once
/// the grace period has passed without the child exiting.
#[derive(Clone, Copy, Debug, PartialEq, Eq, Structural)]
pub struct StopPolicy {
    pub signal: StopSignal,
    pub grace_ms: u64,
}

impl Default for StopPolicy {
    /// The default policy interrupts the child and escalates after five
    /// seconds.
    fn default() -> (r: StopPolicy)
        ensures
            r == (StopPolicy { signal: StopSignal::Interrupt, grace_ms: 5000u64 }),
    {
        StopPolicy { signal: StopSignal::Interrupt, grace_ms: 5000 }
    }
}

/// How a child ended: a normal exit code, a fatal signal, or a failure to
/// spawn at all.
#[derive(Clone, Debug, PartialEq, Eq)]
pub enum ExitInfo {
    Exited(u32),
    Signaled(u32),
    SpawnFailed(String),
}

/// Lifecycle of one managed process.
#[derive(Clone, Debug, PartialEq, Eq)]
pub enum ProcState {
    NotStarted,
    Running,
    Stopping,
    Stopped(ExitInfo),
}

impl ProcState {
    /// A process owns an OS child and a PTY exactly in these two states.
    pub open spec fn has_child(self) -> bool {
        self is Running || self is Stopping
    }
}

/// Mathematical form of `ExitInfo`: the spawn-failure reason as a character
/// sequence.
pub enum ExitView {
    Exited(u32),
    Signaled(u32),
    SpawnFailed(Seq<char>),
}

/// Mathematical form of `ProcState`.
pub enum StateView {
    NotStarted,
    Running,
    Stopping,
    Stopped(ExitView),
}

impl View for ExitInfo {
    type V = ExitView;

    open spec fn view(&self) -> ExitView {
        match self {
            ExitInfo::Exited(c) => ExitView::Exited(*c),
            ExitInfo::Signaled(s) => ExitView::Signaled(*s),
            ExitInfo::SpawnFailed(r) => ExitView::SpawnFailed(r@),
        }
    }
}

impl View for ProcState {
    type V = StateView;

    open spec fn view(&self) -> StateView {
        match self {
            ProcState::NotStarted => StateView::NotStarted,
            ProcState::Running => StateView::Running,
            ProcState::Stopping => StateView::Stopping,
            ProcState::Stopped(info) => StateView::Stopped(info@),
        }
    }
}

/// Why a command was rejected without touching any state.
#[derive(Clone, Copy, Debug, PartialEq, Eq, Structural)]
pub enum CmdError {
    InvalidTransition,
    UnknownProcess,
}

/// One command or asynchronous event applied to a single process.
#[derive(Clone, Debug, PartialEq, Eq)]
pub enum ProcEvent {
    CmdStart,
    CmdStop,
    CmdRestart,
    CmdSendInput(Vec<u8>),
    CmdResize(u16, u16),
    SpawnFailed(String),
    ChildExited(ExitInfo),
    GraceExpired,
}

/// Side effect the caller must perform against the OS after a step.
#[derive(Clone, Debug, PartialEq, Eq)]
pub enum ProcAction {
    Spawn,
    SendSignal(StopSignal),
    StartGraceTimer(u64),
    Kill,
    WriteInput(Vec<u8>),
    Resize(u16, u16),
}

/// The part of a managed process that the state machine reads and writes.
#[derive(Clone, Debug, PartialEq, Eq)]
pub struct ProcCore {
    pub state: ProcState,
    /// True while a restart is armed: the process is being stopped and must
    /// be started again as soon as the child has been reaped. Queued
    /// restarts collapse into this single flag.
    pub restart_armed: bool,
    /// Last window size applied to the PTY, if any.
    pub size: Option<(u16, u16)>,
}

/// What one step hands back: states to announce to every session, actions
/// for the caller to perform, and the rejection if the command was invalid.
#[derive(Clone, Debug, PartialEq, Eq)]
pub struct StepOut {
    pub announce: Vec<ProcState>,
    pub actions: Vec<ProcAction>,
    pub error: Option<CmdError>,
}

pub open spec fn initial_core() -> ProcCore {
    ProcCore { state: ProcState::NotStarted, restart_armed: false, size: None }
}

/// The state after one event, for every state and event.
pub open spec fn step_core(c: ProcCore, ev: ProcEvent) -> ProcCore {
    match ev {
        ProcEvent::CmdStart => if c.state.has_child() {
            c
        } else {
            ProcCore { state: ProcState::Running, restart_armed: false, size: c.size }
        },
        ProcEvent::CmdStop => if c.state is Running {
            ProcCore { state: ProcState::Stopping, restart_armed: false, size: c.size }
        } else {
            c
        },
        ProcEvent::CmdRestart => match c.state {
            ProcState::Running => ProcCore {
                state: ProcState::Stopping,
                restart_armed: true,
                size: c.size,
            },
            ProcState::Stopping => ProcCore {
                state: ProcState::Stopping,
                restart_armed: true,
                size: c.size,
            },
            _ => ProcCore { state: ProcState::Running, restart_armed: false, size: c.size },
        },
        ProcEvent::CmdSendInput(_) => c,
        ProcEvent::CmdResize(cols, rows) => if c.state is Running {
            ProcCore { state: c.state, restart_armed: c.restart_armed, size: Some((cols, rows)) }
        } else {
            c
        },
        ProcEvent::SpawnFailed(reason) => if c.state is Running {
            ProcCore {
                state: ProcState::Stopped(ExitInfo::SpawnFailed(reason)),
                restart_armed: false,
                size: c.size,
            }
        } else {
            c
        },
        ProcEvent::ChildExited(info) => if c.state.has_child() {
            if c.restart_armed {
                ProcCore { state: ProcState::Running, restart_armed: false, size: c.size }
            } else {
                ProcCore { state: ProcState::Stopped(info), restart_armed: false, size: c.size }
            }
        } else {
            c
        },
        ProcEvent::GraceExpired => c,
    }
}

/// The rejection, if any: exactly the transitions the state machine forbids.
pub open spec fn step_error(c: ProcCore, ev: ProcEvent) -> Option<CmdError> {
    match ev {
        ProcEvent::CmdStart => if c.state.has_child() {
            Some(CmdError::InvalidTransition)
        } else {
            None
        },
        ProcEvent::CmdStop => if c.state is Running {
            None
        } else {
            Some(CmdError::InvalidTransition)
        },
        ProcEvent::CmdSendInput(_) => if c.state is Running {
            None
        } else {
            Some(CmdError::InvalidTransition)
        },
        ProcEvent::CmdResize(_, _) => if c.state is Running {
            None
        } else {
            Some(CmdError::InvalidTransition)
        },
        _ => None,
    }
}

/// The OS-facing actions one step asks for.
pub open spec fn step_actions(c: ProcCore, policy: StopPolicy, ev: ProcEvent) -> Seq<ProcAction> {
    match ev {
        ProcEvent::CmdStart => if c.state.has_child() {
            Seq::empty()
        } else {
            seq![ProcAction::Spawn]
        },
        ProcEvent::CmdStop => if c.state is Running {
            seq![
                ProcAction::SendSignal(policy.signal),
                ProcAction::StartGraceTimer(policy.grace_ms),
            ]
        } else {
            Seq::empty()
        },
        ProcEvent::CmdRestart => match c.state {
            ProcState::Running => seq![
                ProcAction::SendSignal(policy.signal),
                ProcAction::StartGraceTimer(policy.grace_ms),
            ],
            ProcState::Stopping => Seq::empty(),
            _ => seq![ProcAction::Spawn],
        },
        ProcEvent::CmdSendInput(data) => if c.state is Running {
            seq![ProcAction::WriteInput(data)]
        } else {
            Seq::empty()
        },
        ProcEvent::CmdResize(cols, rows) => if c.state is Running && c.size != Some(
            (cols, rows),
        ) {
            seq![ProcAction::Resize(cols, rows)]
        } else {
            Seq::empty()
        },
        ProcEvent::SpawnFailed(_) => Seq::empty(),
        ProcEvent::ChildExited(_) => if c.state.has_child() && c.restart_armed {
            seq![ProcAction::Spawn]
        } else {
            Seq::empty()
        },
        ProcEvent::GraceExpired => if c.state is Stopping {
            seq![ProcAction::Kill]
        } else {
            Seq::empty()
        },
    }
}

/// The state-changed events to broadcast, in transition order.
pub open spec fn step_announce(c: ProcCore, ev: ProcEvent) -> Seq<ProcState> {
    match ev {
        ProcEvent::CmdStart => if c.state.has_child() {
            Seq::empty()
        } else {
            seq![ProcState::Running]
        },
        ProcEvent::CmdStop => if c.state is Running {
            seq![ProcState::Stopping]
        } else {
            Seq::empty()
        },
        ProcEvent::CmdRestart => match c.state {
            ProcState::Running => seq![ProcState::Stopping],
            ProcState::Stopping => Seq::empty(),
            _ => seq![ProcState::Running],
        },
        ProcEvent::CmdSendInput(_) => Seq::empty(),
        ProcEvent::CmdResize(_, _) => Seq::empty(),
        ProcEvent::SpawnFailed(reason) => if c.state is Running {
            seq![ProcState::Stopped(ExitInfo::SpawnFailed(reason))]
        } else {
            Seq::empty()
        },
        ProcEvent::ChildExited(info) => if c.state.has_child() {
            if c.restart_armed {
                seq![ProcState::Stopped(info), ProcState::Running]
            } else {
                seq![ProcState::Stopped(info)]
            }
        } else {
            Seq::empty()
        },
        ProcEvent::GraceExpired => Seq::empty(),
    }
}

/// Duplicates exit information; `ExitInfo` owns a `String`, so this is the
/// verified stand-in for `clone`.
pub fn dup_exit(i: &ExitInfo) -> (r: ExitInfo)
    ensures
        r == *i,
{
    match i {
        ExitInfo::Exited(code) => ExitInfo::Exited(*code),
        ExitInfo::Signaled(sig) => ExitInfo::Signaled(*sig),
        ExitInfo::SpawnFailed(reason) => ExitInfo::SpawnFailed(reason.clone()),
    }
}

/// Duplicates a state value; `ProcState` may own a `String`, so this is
/// the verified stand-in for `clone`.
pub fn dup_state(s: &ProcState) -> (r: ProcState)
    ensures
        r == *s,
{
    match s {
        ProcState::NotStarted => ProcState::NotStarted,
        ProcState::Running => ProcState::Running,
        ProcState::Stopping => ProcState::Stopping,
        ProcState::Stopped(info) => ProcState::Stopped(dup_exit(info)),
    }
}

fn empty_out(err: Option<CmdError>) -> (r: StepOut)
    ensures
        r.announce@ == Seq::<ProcState>::empty(),
        r.actions@ == Seq::<ProcAction>::empty(),
        r.error == err,
{
    let r = StepOut { announce: Vec::new(), actions: Vec::new(), error: err };
    assert(r.announce@ =~= Seq::<ProcState>::empty());
    assert(r.actions@ =~= Seq::<ProcAction>::empty());
    r
}

impl ProcCore {
    pub fn new() -> (r: ProcCore)
        ensures
            r == initial_core(),
    {
        ProcCore { state: ProcState::NotStarted, restart_armed: false, size: None }
    }

    /// Applies one command or asynchronous event to this process and says
    /// exactly what the new state is, which state changes to broadcast,
    /// which OS actions to perform, and whether the command was rejected.
    pub fn apply(&mut self, policy: &StopPolicy, ev: ProcEvent) -> (r: StepOut)
        ensures
            *final(self) == step_core(*old(self), ev),
            r.announce@ == step_announce(*old(self), ev),
            r.actions@ == step_actions(*old(self), *policy, ev),
            r.error == step_error(*old(self), ev),
    {
        let ghost gev = ev;
        let running = matches!(self.state, ProcState::Running);
        let stopping = matches!(self.state, ProcState::Stopping);
        match ev {
            ProcEvent::CmdStart => {
                if running || stopping {
                    empty_out(Some(CmdError::InvalidTransition))
                } else {
                    self.state = ProcState::Running;
                    self.restart_armed = false;
                    let r = StepOut {
                        announce: vec![ProcState::Running],
                        actions: vec![ProcAction::Spawn],
                        error: None,
                    };
                    assert(r.announce@ =~= step_announce(*old(self), ProcEvent::CmdStart));
                    assert(r.actions@ =~= step_actions(*old(self), *policy, ProcEvent::CmdStart));
                    r
                }
            },
            ProcEvent::CmdStop => {
                if running {
                    self.state = ProcState::Stopping;
                    self.restart_armed = false;
                    let r = StepOut {
                        announce: vec![ProcState::Stopping],
                        actions: vec![
                            ProcAction::SendSignal(policy.signal),
                            ProcAction::StartGraceTimer(policy.grace_ms),
                        ],
                        error: None,
                    };
                    assert(r.announce@ =~= step_announce(*old(self), ProcEvent::CmdStop));
                    assert(r.actions@ =~= step_actions(*old(self), *policy, ProcEvent::CmdStop));
                    r
                } else {
                    empty_out(Some(CmdError::InvalidTransition))
                }
            },
            ProcEvent::CmdRestart => {
                if running {
                    self.state = ProcState::Stopping;
                    self.restart_armed = true;
                    let r = StepOut {
                        announce: vec![ProcState::Stopping],
                        actions: vec![
                            ProcAction::SendSignal(policy.signal),
                            ProcAction::StartGraceTimer(policy.grace_ms),
                        ],
                        error: None,
                    };
                    assert(r.announce@ =~= step_announce(*old(self), ProcEvent::CmdRestart));
                    assert(r.actions@ =~= step_actions(*old(self), *policy, ProcEvent::CmdRestart));
                    r
                } else if stopping {
                    self.restart_armed = true;
                    empty_out(None)
                } else {
                    self.state = ProcState::Running;
                    self.restart_armed = false;
                    let r = StepOut {
                        announce: vec![ProcState::Running],
                        actions: vec![ProcAction::Spawn],
                        error: None,
                    };
                    assert(r.announce@ =~= step_announce(*old(self), ProcEvent::CmdRestart));
                    assert(r.actions@ =~= step_actions(*old(self), *policy, ProcEvent::CmdRestart));
                    r
                }
            },
            ProcEvent::CmdSendInput(data) => {
                if running {
                    let r = StepOut {
                        announce: Vec::new(),
                        actions: vec![ProcAction::WriteInput(data)],
                        error: None,
                    };
                    assert(r.announce@ =~= step_announce(*old(self), gev));
                    assert(r.actions@ =~= step_actions(*old(self), *policy, gev));
                    r
                } else {
                    empty_out(Some(CmdError::InvalidTransition))
                }
            },
            ProcEvent::CmdResize(cols, rows) => {
                if running {
                    let same = match self.size {
                        Some((c0, r0)) => c0 == cols && r0 == rows,
                        None => false,
                    };
                    if same {
                        empty_out(None)
                    } else {
                        self.size = Some((cols, rows));
                        let r = StepOut {
                            announce: Vec::new(),
                            actions: vec![ProcAction::Resize(cols, rows)],
                            error: None,
                        };
                        assert(r.actions@ =~= step_actions(
                            *old(self),
                            *policy,
                            ProcEvent::CmdResize(cols, rows),
                        ));
                        r
                    }
                } else {
                    empty_out(Some(CmdError::InvalidTransition))
                }
            },
            ProcEvent::SpawnFailed(reason) => {
                if running {
                    let reason2 = reason.clone();
                    self.state = ProcState::Stopped(ExitInfo::SpawnFailed(reason));
                    self.restart_armed = false;
                    let r = StepOut {
                        announce: vec![ProcState::Stopped(ExitInfo::SpawnFailed(reason2))],
                        actions: Vec::new(),
                        error: None,
                    };
                    assert(r.announce@ =~= step_announce(*old(self), gev));
                    assert(r.actions@ =~= step_actions(*old(self), *policy, gev));
                    r
                } else {
                    empty_out(None)
                }
            },
            ProcEvent::ChildExited(info) => {
                if running || stopping {
                    if self.restart_armed {
                        self.state = ProcState::Running;
                        self.restart_armed = false;
                        let r = StepOut {
                            announce: vec![ProcState::Stopped(info), ProcState::Running],
                            actions: vec![ProcAction::Spawn],
                            error: None,
                        };
                        assert(r.announce@ =~= step_announce(*old(self), gev));
                        assert(r.actions@ =~= step_actions(*old(self), *policy, gev));
                        r
                    } else {
                        let info2 = dup_exit(&info);
                        self.state = ProcState::Stopped(info);
                        self.restart_armed = false;
                        let r = StepOut {
                            announce: vec![ProcState::Stopped(info2)],
                            actions: Vec::new(),
                            error: None,
                        };
                        assert(r.announce@ =~= step_announce(*old(self), gev));
                        assert(r.actions@ =~= step_actions(*old(self), *policy, gev));
                        r
                    }
                } else {
                    empty_out(None)
                }
            },
            ProcEvent::GraceExpired => {
                if stopping {
                    let r = StepOut {
                        announce: Vec::new(),
                        actions: vec![ProcAction::Kill],
                        error: None,
                    };
                    assert(r.actions@ =~= step_actions(*old(self), *policy, ProcEvent::GraceExpired));
                    r
                } else {
                    empty_out(None)
                }
            },
        }
    }
}

/// Starting a process that is already started is rejected with
/// `InvalidTransition`: the state does not change and no spawn is asked for,
/// so no second OS child ever comes from a doubled start.
pub proof fn lemma_second_start_rejected(c: ProcCore, policy: StopPolicy)
    requires
        !c.state.has_child(),
    ensures
        ({
            let c1 = step_core(c, ProcEvent::CmdStart);
            &&& c1.state is Running
            &&& step_error(c1, ProcEvent::CmdStart) == Some(CmdError::InvalidTransition)
            &&& step_core(c1, ProcEvent::CmdStart) == c1
            &&& step_actions(c1, policy, ProcEvent::CmdStart) == Seq::<ProcAction>::empty()
            &&& step_announce(c1, ProcEvent::CmdStart) == Seq::<ProcState>::empty()
        }),
{
}

/// Stopping a running process whose child ignores the stop signal: the stop
/// sends the configured signal and starts the grace timer; once the grace
/// period expires the step escalates to an unconditional kill; and the
/// child's eventual exit puts the process in the terminal `Stopped` state.
pub proof fn lemma_stop_escalates_to_kill(c: ProcCore, policy: StopPolicy, info: ExitInfo)
    requires
        c.state is Running,
    ensures
        ({
            let c1 = step_core(c, ProcEvent::CmdStop);
            let c2 = step_core(c1, ProcEvent::GraceExpired);
            let c3 = step_core(c2, ProcEvent::ChildExited(info));
            &&& step_actions(c, policy, ProcEvent::CmdStop) == seq![
                ProcAction::SendSignal(policy.signal),
                ProcAction::StartGraceTimer(policy.grace_ms),
            ]
            &&& c1.state is Stopping
            &&& step_actions(c1, policy, ProcEvent::GraceExpired) == seq![ProcAction::Kill]
            &&& c2.state is Stopping
            &&& c3.state == ProcState::Stopped(info)
            &&& step_announce(c2, ProcEvent::ChildExited(info)) == seq![ProcState::Stopped(info)]
            &&& step_actions(c2, policy, ProcEvent::ChildExited(info))
                == Seq::<ProcAction>::empty()
        }),
{
}

} // verus!
