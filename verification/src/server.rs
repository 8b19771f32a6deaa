use vstd::prelude::*;
use vstd::slice::{slice_subrange, slice_to_vec};
use crate::codec::{Message, ProcSummary, ErrMsg, CtlCommand, CtlView};
use crate::config::ProcConfig;
use crate::proc::{
    ProcCore, ProcEvent, ProcAction, ProcState, CmdError, initial_core, step_core, step_error,
    step_actions, step_announce, dup_state,
};

verus! {

/// How many bytes of a process's recent output are retained for replay to
/// newly attached subscribers.
pub const RETAIN_MAX: usize = 65536;

/// One managed process as the supervisor owns it: its record, its state
/// machine, the retained tail of its output, and the sessions subscribed
/// to that output.
pub struct ManagedProc {
    pub record: ProcConfig,
    pub core: ProcCore,
    pub log: Vec<u8>,
    pub subs: Vec<u64>,
}

/// One message owed to one session after an operation.
pub struct Delivery {
    pub session: u64,
    pub msg: Message,
}

/// What one supervisor operation hands back: messages owed to sessions,
/// and OS actions owed for one process.
pub struct Outcome {
    pub deliveries: Vec<Delivery>,
    pub actions: Vec<ProcAction>,
    /// The rejection the command met, if any.
    pub error: Option<CmdError>,
}

/// The supervisor: the ordered process collection (insertion order is
/// display order, the index is the stable id) and the attached sessions.
pub struct Supervisor {
    pub procs: Vec<ManagedProc>,
    pub sessions: Vec<u64>,
}

/// The error message a rejected command reports.
pub open spec fn err_msg_of(e: CmdError) -> Message {
    match e {
        CmdError::InvalidTransition => Message::ErrorEvent(ErrMsg::InvalidTransition),
        CmdError::UnknownProcess => Message::ErrorEvent(ErrMsg::UnknownProcess),
    }
}

/// The state-changed deliveries one announced state owes: one message per
/// attached session, in session order.
pub open spec fn state_devs(sessions: Seq<u64>, id: u64, st: ProcState) -> Seq<Delivery> {
    Seq::new(
        sessions.len(),
        |i: int| Delivery { session: sessions[i], msg: Message::StateChanged { id, state: st } },
    )
}

/// The deliveries a sequence of announced states owes, in transition order.
pub open spec fn announce_devs(sessions: Seq<u64>, id: u64, states: Seq<ProcState>) -> Seq<
    Delivery,
>
    decreases states.len(),
{
    if states.len() == 0 {
        Seq::empty()
    } else {
        state_devs(sessions, id, states[0]) + announce_devs(sessions, id, states.drop_first())
    }
}

/// A sequence without every occurrence of one value, order otherwise kept.
pub open spec fn without(s: Seq<u64>, x: u64) -> Seq<u64>
    decreases s.len(),
{
    if s.len() == 0 {
        Seq::empty()
    } else if s[0] == x {
        without(s.drop_first(), x)
    } else {
        seq![s[0]] + without(s.drop_first(), x)
    }
}

/// The retained tail of an output history.
pub open spec fn spec_retain(s: Seq<u8>) -> Seq<u8> {
    if s.len() <= RETAIN_MAX as int {
        s
    } else {
        s.skip(s.len() - RETAIN_MAX as int)
    }
}

impl Supervisor {
    /// The snapshot the process list stands for: ids in insertion order.
    pub open spec fn spec_snapshot(self) -> Seq<(u64, Seq<char>, ProcState)> {
        Seq::new(
            self.procs@.len(),
            |i: int|
                (i as u64, self.procs@[i].record.name@, self.procs@[i].core.state),
        )
    }

    /// Builds a supervisor over the given records, every process not yet
    /// started, no session attached.
    pub fn new(records: Vec<ProcConfig>) -> (r: Supervisor)
        ensures
            r.procs@.len() == records@.len(),
            forall|i: int|
                0 <= i < records@.len() ==> {
                    &&& (#[trigger] r.procs@[i]).record == records@[i]
                    &&& r.procs@[i].core == initial_core()
                    &&& r.procs@[i].log@ == Seq::<u8>::empty()
                    &&& r.procs@[i].subs@ == Seq::<u64>::empty()
                },
            r.sessions@ == Seq::<u64>::empty(),
    {
        let ghost orig = records@;
        let mut rest = records;
        let mut procs: Vec<ManagedProc> = Vec::new();
        while rest.len() > 0
            invariant
                procs@.len() + rest@.len() == orig.len(),
                rest@ == orig.skip(procs@.len() as int),
                forall|i: int|
                    0 <= i < procs@.len() ==> {
                        &&& (#[trigger] procs@[i]).record == orig[i]
                        &&& procs@[i].core == initial_core()
                        &&& procs@[i].log@ == Seq::<u8>::empty()
                        &&& procs@[i].subs@ == Seq::<u64>::empty()
                    },
            decreases rest.len(),
        {
            let rec = rest.remove(0);
            let log: Vec<u8> = Vec::new();
            let subs: Vec<u64> = Vec::new();
            procs.push(ManagedProc { record: rec, core: ProcCore::new(), log, subs });
            proof {
                assert(rest@ =~= orig.skip(procs@.len() as int));
            }
        }
        Supervisor { procs, sessions: Vec::new() }
    }

    /// Registers one attached session so state changes reach it.
    pub fn add_session(&mut self, sid: u64)
        ensures
            final(self).procs@ == old(self).procs@,
            final(self).sessions@ == old(self).sessions@.push(sid),
            final(self).spec_snapshot() == old(self).spec_snapshot(),
    {
        self.sessions.push(sid);
        proof {
            assert(final(self).spec_snapshot() =~= old(self).spec_snapshot());
        }
    }

    /// The process list: one row per process, ids in insertion order. The
    /// order equals the order the records were handed to `new`, whatever
    /// sessions attached or detached in between.
    pub fn list_snapshot(&self) -> (r: Vec<ProcSummary>)
        ensures
            r@.len() == self.spec_snapshot().len(),
            forall|i: int|
                0 <= i < r@.len() ==> {
                    &&& (#[trigger] r@[i]).id == self.spec_snapshot()[i].0
                    &&& r@[i].name@ == self.spec_snapshot()[i].1
                    &&& r@[i].state == self.spec_snapshot()[i].2
                },
    {
        let mut out: Vec<ProcSummary> = Vec::new();
        let mut i: usize = 0;
        while i < self.procs.len()
            invariant
                i <= self.procs@.len(),
                out@.len() == i,
                forall|j: int|
                    0 <= j < i ==> {
                        &&& (#[trigger] out@[j]).id == j as u64
                        &&& out@[j].name@ == self.procs@[j].record.name@
                        &&& out@[j].state == self.procs@[j].core.state
                    },
            decreases self.procs@.len() - i,
        {
            let p = &self.procs[i];
            out.push(
                ProcSummary {
                    id: i as u64,
                    name: p.record.name.clone(),
                    state: dup_state(&p.core.state),
                },
            );
            i += 1;
        }
        out
    }

    /// Applies one state-machine event to one process: the core steps as
    /// the state machine says, every attached session is owed the
    /// announced state changes in transition order, and a rejected
    /// command is owed only to the originating session, with no state
    /// change and no OS action.
    pub fn apply_proc_event(&mut self, origin: u64, id: u64, ev: ProcEvent) -> (r: Outcome)
        ensures
            id >= old(self).procs@.len() ==> {
                &&& final(self).procs@ == old(self).procs@
                &&& final(self).sessions@ == old(self).sessions@
                &&& r.deliveries@ == seq![
                    Delivery { session: origin, msg: err_msg_of(CmdError::UnknownProcess) },
                ]
                &&& r.actions@ == Seq::<ProcAction>::empty()
                &&& r.error == Some(CmdError::UnknownProcess)
            },
            id < old(self).procs@.len() ==> {
                let oldp = old(self).procs@[id as int];
                let c1 = step_core(oldp.core, ev);
                &&& final(self).procs@ == old(self).procs@.update(
                    id as int,
                    ManagedProc { record: oldp.record, core: c1, log: oldp.log, subs: oldp.subs },
                )
                &&& final(self).sessions@ == old(self).sessions@
                &&& r.actions@ == step_actions(oldp.core, oldp.record.stop, ev)
                &&& r.error == step_error(oldp.core, ev)
                &&& (match step_error(oldp.core, ev) {
                    Some(e) => r.deliveries@ == seq![
                        Delivery { session: origin, msg: err_msg_of(e) },
                    ],
                    None => r.deliveries@ == announce_devs(
                        old(self).sessions@,
                        id,
                        step_announce(oldp.core, ev),
                    ),
                })
            },
            final(self).spec_snapshot().len() == old(self).spec_snapshot().len(),
    {
        if id >= self.procs.len() as u64 {
            let r = Outcome {
                deliveries: vec![
                    Delivery {
                        session: origin,
                        msg: Message::ErrorEvent(ErrMsg::UnknownProcess),
                    },
                ],
                actions: Vec::new(),
                error: Some(CmdError::UnknownProcess),
            };
            assert(r.actions@ =~= Seq::<ProcAction>::empty());
            return r;
        }
        let idx = id as usize;
        let policy = self.procs[idx].record.stop;
        let ghost oldcore = self.procs@[idx as int].core;
        let ghost oldprocs = self.procs@;
        let step = {
            let p = &mut self.procs[idx];
            p.core.apply(&policy, ev)
        };
        proof {
            let oldp = oldprocs[idx as int];
            assert(self.procs@ =~= oldprocs.update(
                idx as int,
                ManagedProc {
                    record: oldp.record,
                    core: step_core(oldp.core, ev),
                    log: oldp.log,
                    subs: oldp.subs,
                },
            ));
        }
        match step.error {
            Some(e) => {
                let msg = match e {
                    CmdError::InvalidTransition => Message::ErrorEvent(ErrMsg::InvalidTransition),
                    CmdError::UnknownProcess => Message::ErrorEvent(ErrMsg::UnknownProcess),
                };
                Outcome {
                    deliveries: vec![Delivery { session: origin, msg }],
                    actions: step.actions,
                    error: Some(e),
                }
            },
            None => {
                let mut deliveries: Vec<Delivery> = Vec::new();
                let ghost states = step.announce@;
                let mut si: usize = 0;
                while si < step.announce.len()
                    invariant
                        si <= states.len(),
                        step.announce@ == states,
                        self.sessions@ == old(self).sessions@,
                        deliveries@ == announce_devs(self.sessions@, id, states.take(si as int)),
                    decreases states.len() - si,
                {
                    let ghost dev0 = deliveries@;
                    let mut k: usize = 0;
                    while k < self.sessions.len()
                        invariant
                            si < states.len(),
                            step.announce@ == states,
                            k <= self.sessions@.len(),
                            self.sessions@ == old(self).sessions@,
                            deliveries@ == dev0 + state_devs(
                                self.sessions@,
                                id,
                                states[si as int],
                            ).take(k as int),
                        decreases self.sessions@.len() - k,
                    {
                        let st = dup_state(&step.announce[si]);
                        deliveries.push(Delivery {
                            session: self.sessions[k],
                            msg: Message::StateChanged { id, state: st },
                        });
                        proof {
                            assert(deliveries@ =~= dev0 + state_devs(
                                self.sessions@,
                                id,
                                states[si as int],
                            ).take(k as int + 1));
                        }
                        k += 1;
                    }
                    proof {
                        let full = state_devs(self.sessions@, id, states[si as int]);
                        assert(full.take(full.len() as int) =~= full);
                        lemma_announce_devs_take_step(self.sessions@, id, states, si as int);
                        assert(deliveries@ =~= announce_devs(
                            self.sessions@,
                            id,
                            states.take(si as int + 1),
                        ));
                    }
                    si += 1;
                }
                proof {
                    assert(states.take(states.len() as int) =~= states);
                }
                Outcome { deliveries, actions: step.actions, error: None }
            },
        }
    }
}

proof fn lemma_announce_devs_take_step(sessions: Seq<u64>, id: u64, states: Seq<ProcState>, m: int)
    requires
        0 <= m < states.len(),
    ensures
        announce_devs(sessions, id, states.take(m + 1)) == announce_devs(
            sessions,
            id,
            states.take(m),
        ) + state_devs(sessions, id, states[m]),
    decreases m,
{
    if m == 0 {
        assert(states.take(1).drop_first() =~= Seq::<ProcState>::empty());
        assert(states.take(0) =~= Seq::<ProcState>::empty());
        assert(announce_devs(sessions, id, states.take(1)) =~= state_devs(
            sessions,
            id,
            states[0],
        ));
        assert(announce_devs(sessions, id, states.take(m + 1)) =~= announce_devs(
            sessions,
            id,
            states.take(m),
        ) + state_devs(sessions, id, states[m]));
    } else {
        let tail = states.drop_first();
        lemma_announce_devs_take_step(sessions, id, tail, m - 1);
        assert(states.take(m + 1).drop_first() =~= tail.take(m));
        assert(states.take(m).drop_first() =~= tail.take(m - 1));
        assert(states.take(m + 1)[0] == states[0]);
        assert(announce_devs(sessions, id, states.take(m + 1)) =~= announce_devs(
            sessions,
            id,
            states.take(m),
        ) + state_devs(sessions, id, states[m]));
    }
}


/// Mirror of `without` over vectors.
fn vec_without(v: &[u64], x: u64) -> (r: Vec<u64>)
    ensures
        r@ == without(v@, x),
    decreases v@.len(),
{
    if v.len() == 0 {
        let r: Vec<u64> = Vec::new();
        assert(r@ =~= without(v@, x));
        r
    } else {
        let head = v[0];
        let tail = slice_subrange(v, 1, v.len());
        assert(tail@ =~= v@.drop_first());
        let mut rest = vec_without(tail, x);
        if head == x {
            rest
        } else {
            let ghost before = rest@;
            rest.insert(0, head);
            proof {
                assert(rest@ =~= seq![v@[0]] + before);
            }
            rest
        }
    }
}

fn contains_u64(v: &Vec<u64>, x: u64) -> (r: bool)
    ensures
        r == v@.contains(x),
{
    let mut i: usize = 0;
    while i < v.len()
        invariant
            i <= v@.len(),
            forall|j: int| 0 <= j < i ==> v@[j] != x,
        decreases v@.len() - i,
    {
        if v[i] == x {
            return true;
        }
        i += 1;
    }
    proof {
        assert(forall|j: int| 0 <= j < v@.len() ==> v@[j] != x);
    }
    false
}

/// Index of the first process with the given name, if any.
pub open spec fn name_idx(procs: Seq<ManagedProc>, name: Seq<char>) -> Option<int>
    decreases procs.len(),
{
    if procs.len() == 0 {
        None
    } else if procs[0].record.name@ == name {
        Some(0)
    } else {
        match name_idx(procs.drop_first(), name) {
            None => None,
            Some(i) => Some(i + 1),
        }
    }
}

proof fn lemma_name_idx_from(procs: Seq<ManagedProc>, name: Seq<char>, i: int)
    requires
        0 <= i <= procs.len(),
        forall|j: int| 0 <= j < i ==> (#[trigger] procs[j].record.name@) != name,
    ensures
        i < procs.len() && procs[i].record.name@ == name ==> name_idx(procs, name) == Some(i),
        i == procs.len() ==> name_idx(procs, name) is None,
    decreases i,
{
    if i > 0 {
        let tail = procs.drop_first();
        assert(forall|j: int|
            0 <= j < i - 1 ==> (#[trigger] tail[j].record.name@) == procs[j + 1].record.name@);
        lemma_name_idx_from(tail, name, i - 1);
    }
}

impl Supervisor {
    fn find_by_name(&self, name: &String) -> (r: Option<usize>)
        ensures
            r matches Some(u) ==> name_idx(self.procs@, name@) == Some(u as int) && u
                < self.procs@.len(),
            r is None ==> name_idx(self.procs@, name@) is None,
    {
        let mut i: usize = 0;
        while i < self.procs.len()
            invariant
                i <= self.procs@.len(),
                forall|j: int| 0 <= j < i ==> (#[trigger] self.procs@[j].record.name@) != name@,
            decreases self.procs@.len() - i,
        {
            if self.procs[i].record.name == *name {
                proof {
                    lemma_name_idx_from(self.procs@, name@, i as int);
                }
                return Some(i);
            }
            i += 1;
        }
        proof {
            lemma_name_idx_from(self.procs@, name@, self.procs@.len() as int);
        }
        None
    }

    /// Subscribes a session to one process's output and replays the
    /// retained tail to it; the process list and every process's state
    /// are untouched, so the snapshot does not change.
    pub fn attach(&mut self, sid: u64, id: u64) -> (r: Result<Vec<Delivery>, CmdError>)
        ensures
            id >= old(self).procs@.len() ==> {
                &&& r matches Err(e) && e == CmdError::UnknownProcess
                &&& *final(self) == *old(self)
            },
            id < old(self).procs@.len() ==> {
                let oldp = old(self).procs@[id as int];
                &&& r matches Ok(devs) && devs@.len() == 1 && devs@[0].session == sid && (
                devs@[0].msg matches Message::Output { id: oid, data } && oid == id && data@
                    == oldp.log@)
                &&& final(self).procs@ == old(self).procs@.update(
                    id as int,
                    ManagedProc {
                        record: oldp.record,
                        core: oldp.core,
                        log: oldp.log,
                        subs: final(self).procs@[id as int].subs,
                    },
                )
                &&& final(self).procs@[id as int].subs@ == (if oldp.subs@.contains(sid) {
                    oldp.subs@
                } else {
                    oldp.subs@.push(sid)
                })
            },
            final(self).sessions@ == old(self).sessions@,
            final(self).spec_snapshot() == old(self).spec_snapshot(),
    {
        if id >= self.procs.len() as u64 {
            assert(*final(self) == *old(self));
            proof {
                assert(final(self).spec_snapshot() =~= old(self).spec_snapshot());
            }
            return Err(CmdError::UnknownProcess);
        }
        let idx = id as usize;
        let replay: Vec<u8> = slice_to_vec(self.procs[idx].log.as_slice());
        let already = contains_u64(&self.procs[idx].subs, sid);
        if !already {
            let p = &mut self.procs[idx];
            p.subs.push(sid);
        }
        proof {
            assert(final(self).spec_snapshot() =~= old(self).spec_snapshot());
        }
        Ok(vec![Delivery { session: sid, msg: Message::Output { id, data: replay } }])
    }

    /// Unsubscribes a session from one process's output; nothing else
    /// changes.
    pub fn detach(&mut self, sid: u64, id: u64) -> (r: Result<(), CmdError>)
        ensures
            id >= old(self).procs@.len() ==> {
                &&& r matches Err(e) && e == CmdError::UnknownProcess
                &&& *final(self) == *old(self)
            },
            id < old(self).procs@.len() ==> {
                let oldp = old(self).procs@[id as int];
                &&& r is Ok
                &&& final(self).procs@ == old(self).procs@.update(
                    id as int,
                    ManagedProc {
                        record: oldp.record,
                        core: oldp.core,
                        log: oldp.log,
                        subs: final(self).procs@[id as int].subs,
                    },
                )
                &&& final(self).procs@[id as int].subs@ == without(oldp.subs@, sid)
            },
            final(self).sessions@ == old(self).sessions@,
            final(self).spec_snapshot() == old(self).spec_snapshot(),
    {
        if id >= self.procs.len() as u64 {
            assert(*final(self) == *old(self));
            proof {
                assert(final(self).spec_snapshot() =~= old(self).spec_snapshot());
            }
            return Err(CmdError::UnknownProcess);
        }
        let idx = id as usize;
        let filtered = vec_without(self.procs[idx].subs.as_slice(), sid);
        let p = &mut self.procs[idx];
        p.subs = filtered;
        proof {
            assert(final(self).spec_snapshot() =~= old(self).spec_snapshot());
        }
        Ok(())
    }

    /// Forgets a closed session: it leaves the session list and every
    /// process's subscriber set, and no process state changes — closing
    /// one connection never touches the others or the processes.
    pub fn remove_session(&mut self, sid: u64)
        ensures
            final(self).sessions@ == without(old(self).sessions@, sid),
            final(self).procs@.len() == old(self).procs@.len(),
            forall|i: int|
                0 <= i < old(self).procs@.len() ==> {
                    let oldp = old(self).procs@[i];
                    let newp = #[trigger] final(self).procs@[i];
                    &&& newp.record == oldp.record
                    &&& newp.core == oldp.core
                    &&& newp.log == oldp.log
                    &&& newp.subs@ == without(oldp.subs@, sid)
                },
            final(self).spec_snapshot() == old(self).spec_snapshot(),
    {
        let filtered = vec_without(self.sessions.as_slice(), sid);
        self.sessions = filtered;
        let mut i: usize = 0;
        while i < self.procs.len()
            invariant
                i <= self.procs@.len(),
                self.procs@.len() == old(self).procs@.len(),
                self.sessions@ == without(old(self).sessions@, sid),
                forall|j: int|
                    i <= j < self.procs@.len() ==> #[trigger] self.procs@[j]
                        == old(self).procs@[j],
                forall|j: int|
                    0 <= j < i ==> {
                        let oldp = old(self).procs@[j];
                        let newp = #[trigger] self.procs@[j];
                        &&& newp.record == oldp.record
                        &&& newp.core == oldp.core
                        &&& newp.log == oldp.log
                        &&& newp.subs@ == without(oldp.subs@, sid)
                    },
            decreases self.procs@.len() - i,
        {
            let filtered_subs = vec_without(self.procs[i].subs.as_slice(), sid);
            let p = &mut self.procs[i];
            p.subs = filtered_subs;
            i += 1;
        }
        proof {
            assert(final(self).spec_snapshot() =~= old(self).spec_snapshot());
        }
    }

    /// Hands one chunk of child output to every subscriber of that
    /// process, in subscription order, and keeps the retained tail of the
    /// output history for later replays.
    pub fn handle_output(&mut self, id: u64, data: &[u8]) -> (r: Vec<Delivery>)
        ensures
            id >= old(self).procs@.len() ==> r@ == Seq::<Delivery>::empty() && *final(self)
                == *old(self),
            id < old(self).procs@.len() ==> {
                let oldp = old(self).procs@[id as int];
                &&& final(self).procs@ == old(self).procs@.update(
                    id as int,
                    ManagedProc {
                        record: oldp.record,
                        core: oldp.core,
                        log: final(self).procs@[id as int].log,
                        subs: oldp.subs,
                    },
                )
                &&& final(self).procs@[id as int].log@ == spec_retain(oldp.log@ + data@)
                &&& r@.len() == oldp.subs@.len()
                &&& forall|k: int|
                    0 <= k < r@.len() ==> {
                        &&& (#[trigger] r@[k]).session == oldp.subs@[k]
                        &&& r@[k].msg matches Message::Output { id: oid, data: d } && oid == id
                            && d@ == data@
                    }
            },
            final(self).sessions@ == old(self).sessions@,
            final(self).spec_snapshot() == old(self).spec_snapshot(),
    {
        if id >= self.procs.len() as u64 {
            assert(*final(self) == *old(self));
            proof {
                assert(final(self).spec_snapshot() =~= old(self).spec_snapshot());
            }
            return Vec::new();
        }
        let idx = id as usize;
        {
            let p = &mut self.procs[idx];
            let mut chunk = slice_to_vec(data);
            p.log.append(&mut chunk);
            if p.log.len() > RETAIN_MAX {
                let start = p.log.len() - RETAIN_MAX;
                let kept = slice_to_vec(slice_subrange(p.log.as_slice(), start, p.log.len()));
                p.log = kept;
            }
            assert(p.log@ =~= spec_retain(old(self).procs@[idx as int].log@ + data@));
        }
        let mut out: Vec<Delivery> = Vec::new();
        let ghost subs = self.procs@[idx as int].subs@;
        let mut k: usize = 0;
        while k < self.procs[idx].subs.len()
            invariant
                idx < self.procs@.len(),
                subs == self.procs@[idx as int].subs@,
                k <= subs.len(),
                out@.len() == k,
                forall|j: int|
                    0 <= j < k ==> {
                        &&& (#[trigger] out@[j]).session == subs[j]
                        &&& out@[j].msg matches Message::Output { id: oid, data: d } && oid == id
                            && d@ == data@
                    },
            decreases subs.len() - k,
        {
            let sid = self.procs[idx].subs[k];
            let copy = slice_to_vec(data);
            out.push(Delivery { session: sid, msg: Message::Output { id, data: copy } });
            k += 1;
        }
        proof {
            assert(final(self).spec_snapshot() =~= old(self).spec_snapshot());
        }
        out
    }
}


/// Ids of the records marked autostart, in insertion order: these are
/// started at supervisor startup, all others stay `NotStarted`.
pub open spec fn auto_ids(procs: Seq<ManagedProc>, base: int) -> Seq<u64>
    decreases procs.len(),
{
    if procs.len() == 0 {
        Seq::empty()
    } else {
        let rest = auto_ids(procs.drop_first(), base + 1);
        if procs[0].record.autostart {
            seq![base as u64] + rest
        } else {
            rest
        }
    }
}

fn auto_ids_from(procs: &[ManagedProc], base: usize) -> (r: Vec<u64>)
    requires
        base + procs@.len() <= usize::MAX,
    ensures
        r@ == auto_ids(procs@, base as int),
    decreases procs@.len(),
{
    if procs.len() == 0 {
        let r: Vec<u64> = Vec::new();
        assert(r@ =~= auto_ids(procs@, base as int));
        r
    } else {
        let tail = slice_subrange(procs, 1, procs.len());
        assert(tail@ =~= procs@.drop_first());
        let mut rest = auto_ids_from(tail, base + 1);
        if procs[0].record.autostart {
            let ghost before = rest@;
            rest.insert(0, base as u64);
            proof {
                assert(rest@ =~= seq![base as u64] + before);
            }
        }
        rest
    }
}

impl Supervisor {
    /// The processes to start at supervisor startup, in insertion order.
    pub fn autostart_ids(&self) -> (r: Vec<u64>)
        ensures
            r@ == auto_ids(self.procs@, 0),
    {
        let n = self.procs.len();
        assert(self.procs@.len() == n);
        auto_ids_from(self.procs.as_slice(), 0)
    }
}

/// The process name a control command addresses.
pub open spec fn ctl_name(c: CtlView) -> Seq<char> {
    match c {
        CtlView::StartByName(n) => n,
        CtlView::StopByName(n) => n,
        CtlView::RestartByName(n) => n,
    }
}

/// The state-machine event a control command stands for.
pub open spec fn ctl_event(c: CtlView) -> ProcEvent {
    match c {
        CtlView::StartByName(_) => ProcEvent::CmdStart,
        CtlView::StopByName(_) => ProcEvent::CmdStop,
        CtlView::RestartByName(_) => ProcEvent::CmdRestart,
    }
}

impl Supervisor {
    /// Serves one command of the control gateway, addressed by process
    /// name. A name no process carries is answered with exactly one
    /// `UnknownProcess` error to the originating session and nothing
    /// changes; otherwise the command is applied to that process and the
    /// originating session is owed exactly one acknowledgement or error.
    pub fn handle_ctl(&mut self, origin: u64, cmd: &CtlCommand) -> (r: Outcome)
        ensures
            ({
                match name_idx(old(self).procs@, ctl_name(cmd@)) {
                    None => {
                        &&& *final(self) == *old(self)
                        &&& r.deliveries@ == seq![
                            Delivery {
                                session: origin,
                                msg: err_msg_of(CmdError::UnknownProcess),
                            },
                        ]
                        &&& r.actions@ == Seq::<ProcAction>::empty()
                    },
                    Some(i) => {
                        let oldp = old(self).procs@[i];
                        let ev = ctl_event(cmd@);
                        let c1 = step_core(oldp.core, ev);
                        &&& final(self).procs@ == old(self).procs@.update(
                            i,
                            ManagedProc {
                                record: oldp.record,
                                core: c1,
                                log: oldp.log,
                                subs: oldp.subs,
                            },
                        )
                        &&& final(self).sessions@ == old(self).sessions@
                        &&& r.actions@ == step_actions(oldp.core, oldp.record.stop, ev)
                        &&& (match step_error(oldp.core, ev) {
                            Some(e) => r.deliveries@ == seq![
                                Delivery { session: origin, msg: err_msg_of(e) },
                            ],
                            None => r.deliveries@ == announce_devs(
                                old(self).sessions@,
                                i as u64,
                                step_announce(oldp.core, ev),
                            ).push(Delivery { session: origin, msg: Message::Ack }),
                        })
                    },
                }
            }),
            final(self).spec_snapshot().len() == old(self).spec_snapshot().len(),
    {
        let (name, ev): (&String, ProcEvent) = match cmd {
            CtlCommand::StartByName(n) => (n, ProcEvent::CmdStart),
            CtlCommand::StopByName(n) => (n, ProcEvent::CmdStop),
            CtlCommand::RestartByName(n) => (n, ProcEvent::CmdRestart),
        };
        match self.find_by_name(name) {
            None => {
                let r = Outcome {
                    deliveries: vec![
                        Delivery {
                            session: origin,
                            msg: Message::ErrorEvent(ErrMsg::UnknownProcess),
                        },
                    ],
                    actions: Vec::new(),
                    error: Some(CmdError::UnknownProcess),
                };
                assert(r.actions@ =~= Seq::<ProcAction>::empty());
                r
            },
            Some(idx) => {
                let mut out = self.apply_proc_event(origin, idx as u64, ev);
                if out.error.is_none() {
                    out.deliveries.push(Delivery { session: origin, msg: Message::Ack });
                }
                out
            },
        }
    }
}

// ------------------------------------------------------------------
// What a subscriber accumulates.
// ------------------------------------------------------------------

/// All chunks of a sequence, joined in order.
pub open spec fn concat_chunks(cs: Seq<Seq<u8>>) -> Seq<u8>
    decreases cs.len(),
{
    if cs.len() == 0 {
        Seq::empty()
    } else {
        cs[0] + concat_chunks(cs.drop_first())
    }
}

proof fn lemma_concat_take_step(cs: Seq<Seq<u8>>, m: int)
    requires
        0 <= m < cs.len(),
    ensures
        concat_chunks(cs.take(m + 1)) == concat_chunks(cs.take(m)) + cs[m],
    decreases m,
{
    if m == 0 {
        assert(cs.take(1).drop_first() =~= Seq::<Seq<u8>>::empty());
        assert(cs.take(0) =~= Seq::<Seq<u8>>::empty());
        assert(concat_chunks(cs.take(m + 1)) =~= concat_chunks(cs.take(m)) + cs[m]);
    } else {
        let tail = cs.drop_first();
        lemma_concat_take_step(tail, m - 1);
        assert(cs.take(m + 1).drop_first() =~= tail.take(m));
        assert(cs.take(m).drop_first() =~= tail.take(m - 1));
        assert(concat_chunks(cs.take(m + 1)) =~= concat_chunks(cs.take(m)) + cs[m]);
    }
}

/// What a subscriber attached before these chunks has received after any
/// number of them: first the replayed tail, then exactly the chunks so
/// far, in order. Each earlier view is a prefix of each later one, so the
/// stream a subscriber sees is prefix-consistent and order-preserving.
pub proof fn lemma_subscriber_prefix_consistent(log0: Seq<u8>, cs: Seq<Seq<u8>>, m: int, n: int)
    requires
        0 <= m <= n <= cs.len(),
    ensures
        (log0 + concat_chunks(cs.take(m))).is_prefix_of(log0 + concat_chunks(cs.take(n))),
    decreases n - m,
{
    if m == n {
        assert((log0 + concat_chunks(cs.take(m))).is_prefix_of(
            log0 + concat_chunks(cs.take(n)),
        ));
    } else {
        lemma_subscriber_prefix_consistent(log0, cs, m, n - 1);
        lemma_concat_take_step(cs, n - 1);
        assert(log0 + concat_chunks(cs.take(n)) =~= (log0 + concat_chunks(cs.take(n - 1)))
            + cs[n - 1]);
        assert((log0 + concat_chunks(cs.take(m))).is_prefix_of(
            log0 + concat_chunks(cs.take(n)),
        ));
    }
}

/// The replayed tail is a suffix of everything the child wrote before the
/// attach, so replay plus live chunks is a suffix of everything the child
/// ever wrote: a subscriber's view is a true view of the output since it
/// attached, with the retained tail in front.
pub proof fn lemma_replay_is_suffix(written0: Seq<u8>, cs: Seq<Seq<u8>>)
    ensures
        ({
            let k = if written0.len() <= RETAIN_MAX as int {
                0
            } else {
                written0.len() - RETAIN_MAX as int
            };
            spec_retain(written0) + concat_chunks(cs) == (written0 + concat_chunks(cs)).skip(k)
        }),
{
    let k = if written0.len() <= RETAIN_MAX as int {
        0
    } else {
        written0.len() - RETAIN_MAX as int
    };
    assert(spec_retain(written0) + concat_chunks(cs) =~= (written0 + concat_chunks(cs)).skip(k));
}

} // verus!
