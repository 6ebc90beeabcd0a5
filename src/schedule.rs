//! The off-chain task's guard and timer: a lock that a crashed run cannot
//! wedge, because a new execution id clears it, and a counter that fires
//! the fetch cycle once every `periodicity` ticks.
use vstd::prelude::*;

verus! {

/// Whether the guarded task ran.
#[derive(Debug, Clone, Copy, PartialEq, Eq, Structural)]
pub enum LockedExecResult {
    Locked,
    Executed,
}

/// The lock's persisted state under one prefix: the execution id last seen
/// and the lock flag.
pub struct LockStore {
    pub exec_id: Option<Vec<u8>>,
    pub locked: Option<bool>,
}

/// The model of a `LockStore`.
pub struct LockState {
    pub exec_id: Option<Seq<u8>>,
    pub locked: Option<bool>,
}

impl View for LockStore {
    type V = LockState;

    open spec fn view(&self) -> LockState {
        LockState {
            exec_id: match self.exec_id {
                Some(v) => Some(v@),
                None => None,
            },
            locked: self.locked,
        }
    }
}

/// The state after the fence: a global execution id that differs from the
/// stored one (or a missing stored one) is recorded and clears the flag.
pub open spec fn fenced(s: LockState, global_id: Option<Seq<u8>>) -> LockState {
    match global_id {
        None => s,
        Some(g) => if s.exec_id == Some(g) {
            s
        } else {
            LockState { exec_id: Some(g), locked: None }
        },
    }
}

/// Whether two byte strings are equal.
fn bytes_equal(a: &Vec<u8>, b: &Vec<u8>) -> (r: bool)
    ensures
        r == (a@ == b@),
{
    if a.len() != b.len() {
        return false;
    }
    let mut i: usize = 0;
    while i < a.len()
        invariant
            a.len() == b.len(),
            i <= a.len(),
            forall|k: int| 0 <= k < i ==> a@[k] == b@[k],
        decreases a.len() - i,
    {
        if a[i] != b[i] {
            return false;
        }
        i = i + 1;
    }
    assert(a@ =~= b@);
    true
}

fn copy_bytes(a: &Vec<u8>) -> (r: Vec<u8>)
    ensures
        r@ == a@,
{
    let mut out: Vec<u8> = Vec::new();
    let mut i: usize = 0;
    while i < a.len()
        invariant
            i <= a.len(),
            out@ == a@.take(i as int),
        decreases a.len() - i,
    {
        out.push(a[i]);
        i = i + 1;
        assert(out@ =~= a@.take(i as int));
    }
    assert(a@.take(i as int) =~= a@);
    out
}

impl LockStore {
    pub fn new() -> (r: LockStore)
        ensures
            r@ == (LockState { exec_id: None, locked: None }),
    {
        LockStore { exec_id: None, locked: None }
    }

    /// Applies the fence for the node's current execution id.
    pub fn apply_fence(&mut self, global_id: &Option<Vec<u8>>)
        ensures
            final(self)@ == fenced(
                old(self)@,
                match global_id {
                    Some(g) => Some(g@),
                    None => None,
                },
            ),
    {
        match global_id {
            None => {},
            Some(g) => {
                let same = match &self.exec_id {
                    Some(stored) => bytes_equal(stored, g),
                    None => false,
                };
                if !same {
                    self.exec_id = Some(copy_bytes(g));
                    self.locked = None;
                }
            },
        }
    }

    /// Sets the flag unless it is already set; reports whether it did.
    pub fn try_lock(&mut self) -> (r: bool)
        ensures
            r == (old(self)@.locked != Some(true)),
            final(self)@.exec_id == old(self)@.exec_id,
            final(self)@.locked == Some(true),
    {
        match self.locked {
            Some(true) => false,
            _ => {
                self.locked = Some(true);
                true
            },
        }
    }

    /// Clears the flag.
    pub fn release(&mut self)
        ensures
            final(self)@ == (LockState { exec_id: old(self)@.exec_id, locked: None }),
    {
        self.locked = None;
    }
}

/// The task that runs under the lock.
pub trait LockedTask {
    /// How many times the task has run.
    spec fn runs(&self) -> nat;

    /// Whether the task can run.
    spec fn ready(&self) -> bool;

    /// Runs the task once.
    fn run(&mut self)
        requires
            old(self).ready(),
        ensures
            final(self).runs() == old(self).runs() + 1,
            final(self).ready(),
    ;
}

/// Where the lock's state is kept between runs.
pub trait LockPersistence {
    /// The lock states written so far, in order.
    spec fn saved(&self) -> Seq<LockState>;

    /// Whether the store can be written.
    spec fn ready(&self) -> bool;

    /// Writes the taken lock, unless another run has changed the stored
    /// lock since it was read; reports whether it wrote.
    fn take(&mut self, state: &LockStore) -> (r: bool)
        requires
            old(self).ready(),
        ensures
            final(self).ready(),
            final(self).saved() == if r {
                old(self).saved().push(state@)
            } else {
                old(self).saved()
            },
    ;

    /// Writes the released lock.
    fn release(&mut self, state: &LockStore)
        requires
            old(self).ready(),
        ensures
            final(self).ready(),
            final(self).saved() == old(self).saved().push(state@),
    ;
}

/// A task made of a closure.
pub struct TaskFn<F: Fn()> {
    pub f: F,
    pub count: Ghost<nat>,
}

impl<F: Fn()> TaskFn<F> {
    pub fn new(f: F) -> (r: TaskFn<F>)
        requires
            f.requires(()),
        ensures
            r.runs() == 0,
            r.ready(),
    {
        TaskFn { f, count: Ghost(0) }
    }
}

impl<F: Fn()> LockedTask for TaskFn<F> {
    open spec fn runs(&self) -> nat {
        self.count@
    }

    open spec fn ready(&self) -> bool {
        self.f.requires(())
    }

    fn run(&mut self) {
        (self.f)();
        self.count = Ghost(self.count@ + 1);
    }
}

/// A lock store that keeps every state written to it.
pub struct LockLog {
    pub states: Vec<LockStore>,
}

impl LockLog {
    pub fn new() -> (r: LockLog)
        ensures
            r.saved() == Seq::<LockState>::empty(),
    {
        LockLog { states: Vec::new() }
    }

    fn record(&mut self, state: &LockStore)
        ensures
            final(self).saved() == old(self).saved().push(state@),
    {
        let exec_id = match &state.exec_id {
            Some(id) => Some(copy_bytes(id)),
            None => None,
        };
        let ghost before = self.saved();
        self.states.push(LockStore { exec_id, locked: state.locked });
        assert(self.saved() =~= before.push(state@));
    }
}

impl LockPersistence for LockLog {
    open spec fn saved(&self) -> Seq<LockState> {
        self.states@.map_values(|x: LockStore| x@)
    }

    open spec fn ready(&self) -> bool {
        true
    }

    fn take(&mut self, state: &LockStore) -> (r: bool) {
        self.record(state);
        true
    }

    fn release(&mut self, state: &LockStore) {
        self.record(state);
    }
}

/// A lock store made of two closures: `take_fn` writes the taken lock if
/// it can and reports whether it did, `release_fn` writes the released
/// lock.
pub struct PersistFn<T: Fn(&LockStore) -> bool, R: Fn(&LockStore)> {
    pub take_fn: T,
    pub release_fn: R,
    pub written: Ghost<Seq<LockState>>,
}

impl<T: Fn(&LockStore) -> bool, R: Fn(&LockStore)> PersistFn<T, R> {
    pub fn new(take_fn: T, release_fn: R) -> (r: PersistFn<T, R>)
        requires
            forall|s: &LockStore| take_fn.requires((s,)),
            forall|s: &LockStore| release_fn.requires((s,)),
        ensures
            r.saved() == Seq::<LockState>::empty(),
            r.ready(),
    {
        PersistFn { take_fn, release_fn, written: Ghost(Seq::empty()) }
    }
}

impl<T: Fn(&LockStore) -> bool, R: Fn(&LockStore)> LockPersistence for PersistFn<T, R> {
    open spec fn saved(&self) -> Seq<LockState> {
        self.written@
    }

    open spec fn ready(&self) -> bool {
        &&& forall|s: &LockStore| self.take_fn.requires((s,))
        &&& forall|s: &LockStore| self.release_fn.requires((s,))
    }

    fn take(&mut self, state: &LockStore) -> (r: bool) {
        let r = (self.take_fn)(state);
        if r {
            self.written = Ghost(self.written@.push(state@));
        }
        r
    }

    fn release(&mut self, state: &LockStore) {
        (self.release_fn)(state);
        self.written = Ghost(self.written@.push(state@));
    }
}

/// Runs `task` under the lock. First the fence for `global_id`: a new
/// execution id is recorded and clears a flag left by a crashed run. Then,
/// if the flag is set, the task does not run and nothing is written.
/// Otherwise the taken lock is written through `persist`; if that write
/// loses to another run the task does not run, else it runs once and the
/// released lock is written.
pub fn acquire_lock<P: LockPersistence, T: LockedTask>(
    store: &mut LockStore,
    global_id: &Option<Vec<u8>>,
    persist: &mut P,
    task: &mut T,
) -> (r: LockedExecResult)
    requires
        old(task).ready(),
        old(persist).ready(),
    ensures
        ({
            let s = fenced(
                old(store)@,
                match global_id {
                    Some(g) => Some(g@),
                    None => None,
                },
            );
            let taken = LockState { exec_id: s.exec_id, locked: Some(true) };
            let released = LockState { exec_id: s.exec_id, locked: None };
            if s.locked == Some(true) {
                &&& r == LockedExecResult::Locked
                &&& final(store)@ == s
                &&& final(task).runs() == old(task).runs()
                &&& final(persist).saved() == old(persist).saved()
            } else if r == LockedExecResult::Executed {
                &&& final(store)@ == released
                &&& final(task).runs() == old(task).runs() + 1
                &&& final(persist).saved() == old(persist).saved().push(taken).push(released)
            } else {
                &&& final(store)@ == s
                &&& final(task).runs() == old(task).runs()
                &&& final(persist).saved() == old(persist).saved()
            }
        }),
{
    store.apply_fence(global_id);
    let prior = store.locked;
    if !store.try_lock() {
        return LockedExecResult::Locked;
    }
    if !persist.take(&*store) {
        store.locked = prior;
        return LockedExecResult::Locked;
    }
    task.run();
    store.release();
    persist.release(&*store);
    LockedExecResult::Executed
}

/// What one tick of the scheduler does: the counter value to store, if
/// any, and whether the fetch cycle fires.
#[derive(Debug, Clone, Copy, PartialEq, Eq, Structural)]
pub struct ScheduleStep {
    pub counter: Option<u32>,
    pub fire: bool,
}

/// One tick: nothing without a periodicity of at least one; else the
/// counter advances, and reaching the periodicity fires and resets it,
/// while passing it (the periodicity was lowered) resets it silently.
pub open spec fn tick_spec(counter: Option<u32>, periodicity: Option<u32>) -> ScheduleStep {
    match periodicity {
        None => ScheduleStep { counter: None, fire: false },
        Some(p) => {
            let next = match counter {
                Some(c) => c + 1,
                None => 1,
            };
            if p < 1 {
                ScheduleStep { counter: None, fire: false }
            } else if next == p {
                ScheduleStep { counter: Some(0), fire: true }
            } else if next > p {
                ScheduleStep { counter: Some(0), fire: false }
            } else {
                ScheduleStep { counter: Some(next as u32), fire: false }
            }
        },
    }
}

/// Decides one tick of the scheduler from the stored counter and
/// periodicity.
pub fn tick_schedule(counter: Option<u32>, periodicity: Option<u32>) -> (r: ScheduleStep)
    ensures
        r == tick_spec(counter, periodicity),
{
    match periodicity {
        None => ScheduleStep { counter: None, fire: false },
        Some(p) => {
            if p < 1 {
                return ScheduleStep { counter: None, fire: false };
            }
            let next: u64 = match counter {
                Some(c) => c as u64 + 1,
                None => 1,
            };
            if next == p as u64 {
                ScheduleStep { counter: Some(0), fire: true }
            } else if next > p as u64 {
                ScheduleStep { counter: Some(0), fire: false }
            } else {
                ScheduleStep { counter: Some(next as u32), fire: false }
            }
        },
    }
}

} // verus!
