use vstd::prelude::*;

verus! {

/// Worker state: exited after waiting too long for a job.
pub const WORKER_EXITED: u8 = 0;

/// Worker state: waiting for a job.
pub const WORKER_IDLE: u8 = 1;

/// Worker state: running a job.
pub const WORKER_BUSY: u8 = 2;

/// Number of idle workers (state 1).
pub open spec fn count_idle(s: Seq<u8>) -> nat
    decreases s.len(),
{
    if s.len() == 0 {
        0
    } else {
        count_idle(s.drop_last()) + if s.last() == 1 {
            1nat
        } else {
            0nat
        }
    }
}

/// Number of busy workers (state above 1).
pub open spec fn count_busy(s: Seq<u8>) -> nat
    decreases s.len(),
{
    if s.len() == 0 {
        0
    } else {
        count_busy(s.drop_last()) + if s.last() > 1 {
            1nat
        } else {
            0nat
        }
    }
}

/// Positions of the exited workers (state 0), ascending.
pub open spec fn exited_positions(s: Seq<u8>) -> Seq<usize>
    decreases s.len(),
{
    if s.len() == 0 {
        Seq::empty()
    } else if s.last() == 0 {
        exited_positions(s.drop_last()).push((s.len() - 1) as usize)
    } else {
        exited_positions(s.drop_last())
    }
}

/// Every worker is idle, busy or exited: the three counts add up to the pool's size.
proof fn lemma_states_partition(s: Seq<u8>)
    ensures
        count_idle(s) + count_busy(s) + exited_positions(s).len() == s.len(),
    decreases s.len(),
{
    if s.len() > 0 {
        lemma_states_partition(s.drop_last());
    }
}

/// What the pool does before queueing a job, given its workers' states.
#[derive(Debug)]
pub struct PoolPlan {
    /// Workers waiting for a job.
    pub idle: usize,
    /// Workers running a job.
    pub busy: usize,
    /// Whether a new worker is started.
    pub grow: bool,
    /// Positions of the exited workers to drop (ascending; drop them from the back).
    pub retire: Vec<usize>,
    /// Id of the new worker: the number of workers left after the drop.
    pub new_id: usize,
}

/// With no idle worker and fewer busy workers than `max`, the exited workers are dropped
/// and a new one is started; otherwise the job just goes to the queue.
pub fn plan_execute(states: &[u8], max: usize) -> (plan: PoolPlan)
    ensures
        plan.idle == count_idle(states@),
        plan.busy == count_busy(states@),
        plan.grow == (plan.idle == 0 && max > plan.busy),
        plan.grow ==> plan.retire@ == exited_positions(states@),
        !plan.grow ==> plan.retire@.len() == 0,
        plan.grow ==> plan.new_id == states@.len() - plan.retire@.len(),
        plan.grow ==> plan.new_id + 1 <= max,
{
    let mut idle: usize = 0;
    let mut busy: usize = 0;
    let mut exited: Vec<usize> = Vec::new();
    let mut i: usize = 0;
    while i < states.len()
        invariant
            i <= states@.len(),
            idle == count_idle(states@.take(i as int)),
            busy == count_busy(states@.take(i as int)),
            exited@ == exited_positions(states@.take(i as int)),
            idle + busy + exited@.len() <= i,
        decreases states@.len() - i,
    {
        proof {
            assert(states@.take(i + 1).drop_last() =~= states@.take(i as int));
        }
        let v = states[i];
        if v == 1 {
            idle += 1;
        } else if v > 1 {
            busy += 1;
        } else {
            exited.push(i);
        }
        i += 1;
    }
    assert(states@.take(i as int) =~= states@);
    let grow = idle == 0 && max > busy;
    proof {
        assert(states@.take(i as int) =~= states@);
        lemma_states_partition(states@);
    }
    if grow {
        let new_id = states.len() - exited.len();
        PoolPlan { idle, busy, grow, retire: exited, new_id }
    } else {
        PoolPlan { idle, busy, grow, retire: Vec::new(), new_id: states.len() }
    }
}

/// What a waiting worker got.
#[derive(Clone, Copy, Debug, PartialEq, Eq, Structural)]
pub enum WorkerEvent {
    /// A job arrived.
    Job,
    /// No job came within the wait limit (or the queue closed).
    Timeout,
}

/// What a worker does next.
#[derive(Clone, Copy, Debug, PartialEq, Eq, Structural)]
pub struct WorkerStep {
    /// State while the job runs, when there is one.
    pub running: Option<u8>,
    /// State afterwards.
    pub after: u8,
    /// The worker's thread ends.
    pub exit: bool,
}

/// A job is run as busy and leaves the worker idle again; a timeout marks the worker
/// exited and ends its thread.
pub open spec fn spec_worker_step(event: WorkerEvent) -> WorkerStep {
    match event {
        WorkerEvent::Job => WorkerStep { running: Some(WORKER_BUSY), after: WORKER_IDLE, exit: false },
        WorkerEvent::Timeout => WorkerStep { running: None, after: WORKER_EXITED, exit: true },
    }
}

/// A job is run as busy and leaves the worker idle again; a timeout marks the worker
/// exited and ends it.
pub fn worker_step(event: WorkerEvent) -> (step: WorkerStep)
    ensures
        step == spec_worker_step(event),
{
    match event {
        WorkerEvent::Job => WorkerStep { running: Some(WORKER_BUSY), after: WORKER_IDLE, exit: false },
        WorkerEvent::Timeout => WorkerStep { running: None, after: WORKER_EXITED, exit: true },
    }
}

/// The states a worker's `running` flag takes as it meets `events`, each handled by
/// `worker_step`: it starts idle; once a step ends its thread, later events are not met.
pub open spec fn worker_life(events: Seq<WorkerEvent>) -> Seq<u8>
    decreases events.len(),
{
    if events.len() == 0 {
        seq![WORKER_IDLE]
    } else {
        let before = worker_life(events.drop_last());
        if before.last() == WORKER_EXITED {
            before
        } else {
            let step = spec_worker_step(events.last());
            let during = match step.running {
                Some(r) => before.push(r),
                None => before,
            };
            during.push(step.after)
        }
    }
}

/// The moves a worker's state can make: idle to busy (a job is taken), busy to idle (the
/// job returned), idle to exited (no job came in time).
pub open spec fn worker_move(from: u8, to: u8) -> bool {
    ||| from == WORKER_IDLE && to == WORKER_BUSY
    ||| from == WORKER_BUSY && to == WORKER_IDLE
    ||| from == WORKER_IDLE && to == WORKER_EXITED
}

/// A worker's whole life: it starts idle, every change of state is one of the three
/// moves, it is idle or exited between events, and exited is final (it appears only as
/// the last state).
pub proof fn lemma_worker_life(events: Seq<WorkerEvent>)
    ensures
        worker_life(events)[0] == WORKER_IDLE,
        worker_life(events).last() == WORKER_IDLE || worker_life(events).last() == WORKER_EXITED,
        forall|i: int|
            0 <= i < worker_life(events).len() - 1 ==> worker_move(
                #[trigger] worker_life(events)[i],
                worker_life(events)[i + 1],
            ),
        forall|i: int|
            0 <= i < worker_life(events).len() - 1 ==> #[trigger] worker_life(events)[i]
                != WORKER_EXITED,
    decreases events.len(),
{
    if events.len() > 0 {
        let before = worker_life(events.drop_last());
        lemma_worker_life(events.drop_last());
        if before.last() != WORKER_EXITED {
            let life = worker_life(events);
            match events.last() {
                WorkerEvent::Job => {
                    assert(life == before.push(WORKER_BUSY).push(WORKER_IDLE));
                    assert forall|i: int| 0 <= i < life.len() - 1 implies worker_move(
                        #[trigger] life[i],
                        life[i + 1],
                    ) && life[i] != WORKER_EXITED by {
                        if i < before.len() - 1 {
                            assert(life[i] == before[i] && life[i + 1] == before[i + 1]);
                        }
                    }
                },
                WorkerEvent::Timeout => {
                    assert(life == before.push(WORKER_EXITED));
                    assert forall|i: int| 0 <= i < life.len() - 1 implies worker_move(
                        #[trigger] life[i],
                        life[i + 1],
                    ) && life[i] != WORKER_EXITED by {
                        if i < before.len() - 1 {
                            assert(life[i] == before[i] && life[i + 1] == before[i + 1]);
                        }
                    }
                },
            }
        }
    }
}

} // verus!
