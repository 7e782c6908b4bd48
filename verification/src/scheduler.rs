//! The agenda of named calls that run when their block comes: each one pays
//! out a money pot.

use vstd::prelude::*;
use crate::types::{BlockNumber, PotHash};

verus! {

/// A scheduled call of `transfer_balance` for the pot `call`, due on block `when`.
#[derive(Clone, Debug, PartialEq, Eq)]
pub struct ScheduledTask {
    pub name: Vec<u8>,
    pub when: BlockNumber,
    pub call: PotHash,
}

/// A scheduled call, with its name as a sequence.
pub struct TaskView {
    pub name: Seq<u8>,
    pub when: BlockNumber,
    pub call: PotHash,
}

impl View for ScheduledTask {
    type V = TaskView;

    open spec fn view(&self) -> TaskView {
        TaskView { name: self.name@, when: self.when, call: self.call }
    }
}

/// Why a call could not be scheduled.
#[derive(Clone, Copy, Debug, PartialEq, Eq)]
pub enum SchedulerError {
    /// The block is not after the current one
    TargetBlockNumberInPast,
    /// A call with the same name is already scheduled
    FailedToSchedule,
}

/// The agenda with `task` added, when its block is after `now` and its name is free.
pub open spec fn spec_schedule_named(agenda: Seq<TaskView>, now: BlockNumber, task: TaskView) -> Result<
    Seq<TaskView>,
    SchedulerError,
> {
    if task.when <= now {
        Err(SchedulerError::TargetBlockNumberInPast)
    } else if exists|i: int| 0 <= i < agenda.len() && #[trigger] agenda[i].name == task.name {
        Err(SchedulerError::FailedToSchedule)
    } else {
        Ok(agenda.push(task))
    }
}

/// The pots whose calls are due on block `now`, in the order of the agenda.
pub open spec fn due_calls(agenda: Seq<TaskView>, now: BlockNumber) -> Seq<PotHash>
    decreases agenda.len(),
{
    if agenda.len() == 0 {
        Seq::empty()
    } else {
        let rest = due_calls(agenda.drop_last(), now);
        if agenda.last().when == now {
            rest.push(agenda.last().call)
        } else {
            rest
        }
    }
}

/// The tasks of the agenda that are not due on block `now`.
pub open spec fn not_due(agenda: Seq<TaskView>, now: BlockNumber) -> Seq<TaskView>
    decreases agenda.len(),
{
    if agenda.len() == 0 {
        Seq::empty()
    } else {
        let rest = not_due(agenda.drop_last(), now);
        if agenda.last().when == now {
            rest
        } else {
            rest.push(agenda.last())
        }
    }
}

pub proof fn lemma_not_due_subset(agenda: Seq<TaskView>, now: BlockNumber)
    ensures
        forall|i: int|
            0 <= i < not_due(agenda, now).len() ==> exists|j: int|
                0 <= j < agenda.len() && agenda[j] == #[trigger] not_due(agenda, now)[i],
    decreases agenda.len(),
{
    if agenda.len() > 0 {
        let t = agenda.drop_last();
        lemma_not_due_subset(t, now);
        assert forall|i: int| 0 <= i < not_due(agenda, now).len() implies exists|j: int|
            0 <= j < agenda.len() && agenda[j] == #[trigger] not_due(agenda, now)[i] by {
            if i < not_due(t, now).len() {
                let j = choose|j: int| 0 <= j < t.len() && t[j] == not_due(t, now)[i];
                assert(agenda[j] == t[j]);
            } else {
                assert(agenda[agenda.len() - 1] == not_due(agenda, now)[i]);
            }
        }
    }
}

/// Whether two byte strings are equal.
fn bytes_eq(a: &Vec<u8>, b: &Vec<u8>) -> (r: bool)
    ensures
        r == (a@ == b@),
{
    if a.len() != b.len() {
        return false;
    }
    let n = a.len();
    for i in 0..n
        invariant
            n == a@.len(),
            n == b@.len(),
            forall|j: int| 0 <= j < i ==> a@[j] == b@[j],
    {
        if a[i] != b[i] {
            return false;
        }
    }
    assert(a@ =~= b@);
    true
}

/// The calls scheduled for later blocks.
#[derive(Clone, Debug, PartialEq, Eq)]
pub struct Agenda {
    tasks: Vec<ScheduledTask>,
}

/// The views of a sequence of tasks.
pub open spec fn task_views(s: Seq<ScheduledTask>) -> Seq<TaskView> {
    s.map_values(|t: ScheduledTask| t@)
}

impl View for Agenda {
    type V = Seq<TaskView>;

    closed spec fn view(&self) -> Seq<TaskView> {
        task_views(self.tasks@)
    }
}

impl Agenda {
    pub fn new() -> (r: Agenda)
        ensures
            r@ == Seq::<TaskView>::empty(),
    {
        let r = Agenda { tasks: Vec::new() };
        assert(r@ =~= Seq::<TaskView>::empty());
        r
    }

    /// The number of scheduled calls.
    pub fn len(&self) -> (r: usize)
        ensures
            r == self@.len(),
    {
        self.tasks.len()
    }

    /// Schedules a call of `transfer_balance` for `call` on block `when` under `name`.
    pub fn schedule_named(&mut self, now: BlockNumber, name: Vec<u8>, when: BlockNumber, call: PotHash) -> (r:
        Result<(), SchedulerError>)
        ensures
            match spec_schedule_named(old(self)@, now, TaskView { name: name@, when, call }) {
                Ok(a) => r is Ok && final(self)@ == a,
                Err(e) => r == Err::<(), SchedulerError>(e) && final(self)@ == old(self)@,
            },
    {
        if when <= now {
            return Err(SchedulerError::TargetBlockNumberInPast);
        }
        let n = self.tasks.len();
        for i in 0..n
            invariant
                n == self.tasks@.len(),
                now < when,
                self@ == old(self)@,
                forall|j: int| 0 <= j < i ==> #[trigger] self@[j].name != name@,
        {
            if bytes_eq(&self.tasks[i].name, &name) {
                assert(task_views(self.tasks@)[i as int] == self.tasks@[i as int]@);
                assert(self@[i as int].name == name@);
                return Err(SchedulerError::FailedToSchedule);
            }
        }
        let ghost before = self@;
        let task = ScheduledTask { name, when, call };
        self.tasks.push(task);
        assert(self@ =~= before.push(task@));
        Ok(())
    }

    /// Removes the calls due on block `now` and returns their pots, in the order of the agenda.
    pub fn take_due(&mut self, now: BlockNumber) -> (r: Vec<PotHash>)
        ensures
            r@ == due_calls(old(self)@, now),
            final(self)@ == not_due(old(self)@, now),
    {
        let mut due: Vec<PotHash> = Vec::new();
        let mut rest: Vec<ScheduledTask> = Vec::new();
        let ghost all = self@;
        let mut tasks: Vec<ScheduledTask> = Vec::new();
        std::mem::swap(&mut tasks, &mut self.tasks);
        assert(task_views(tasks@) == all);
        assert(all.skip(0) =~= all);
        let n = tasks.len();
        let mut i: usize = 0;
        while i < n
            invariant
                0 <= i <= n,
                n == all.len(),
                task_views(tasks@) == all.skip(i as int),
                due@ == due_calls(all.take(i as int), now),
                task_views(rest@) == not_due(all.take(i as int), now),
            decreases n - i,
        {
            assert(all.take(i + 1).drop_last() =~= all.take(i as int));
            assert(all.skip(i as int)[0] == all[i as int]);
            let ghost before_tasks = tasks@;
            assert(task_views(tasks@).len() == tasks@.len());
            let task = tasks.remove(0);
            assert(task@ == all[i as int]) by {
                assert(task_views(before_tasks)[0] == before_tasks[0]@);
            }
            assert(task_views(tasks@) =~= all.skip(i + 1)) by {
                assert forall|j: int| 0 <= j < tasks@.len() implies #[trigger] task_views(tasks@)[j] == all.skip(i + 1)[j] by {
                    assert(tasks@[j] == before_tasks[j + 1]);
                    assert(task_views(before_tasks)[j + 1] == before_tasks[j + 1]@);
                }
            }
            if task.when == now {
                due.push(task.call);
            } else {
                let ghost before_rest = rest@;
                rest.push(task);
                assert(task_views(rest@) =~= task_views(before_rest).push(task@));
            }
            i = i + 1;
        }
        assert(all.take(n as int) =~= all);
        self.tasks = rest;
        due
    }
}

// ---- what the agenda promises ----

/// Whether the task `t` is due on block `now`.
pub open spec fn is_due(now: BlockNumber) -> spec_fn(TaskView) -> bool {
    |t: TaskView| t.when == now
}

/// Whether the task `t` is not due on block `now`.
pub open spec fn is_not_due(now: BlockNumber) -> spec_fn(TaskView) -> bool {
    |t: TaskView| t.when != now
}

/// The start of block `now` runs the call of every task due on it, and only
/// those, in the order of the agenda: the calls run are the calls of the
/// tasks of the agenda whose block is `now`.
pub proof fn law_due_calls_are_the_due_tasks(agenda: Seq<TaskView>, now: BlockNumber)
    ensures
        due_calls(agenda, now) == agenda.filter(is_due(now)).map_values(|t: TaskView| t.call),
        due_calls(agenda, now).len() == agenda.filter(is_due(now)).len(),
        forall|i: int| 0 <= i < agenda.len() && agenda[i].when == now ==> due_calls(agenda, now).contains(
            #[trigger] agenda[i].call,
        ),
    decreases agenda.len(),
{
    reveal(Seq::filter);
    if agenda.len() > 0 {
        let t = agenda.drop_last();
        law_due_calls_are_the_due_tasks(t, now);
        assert(due_calls(agenda, now) =~= agenda.filter(is_due(now)).map_values(|t: TaskView| t.call));
    } else {
        assert(due_calls(agenda, now) =~= agenda.filter(is_due(now)).map_values(|t: TaskView| t.call));
    }
    assert forall|i: int| 0 <= i < agenda.len() && agenda[i].when == now implies due_calls(
        agenda,
        now,
    ).contains(#[trigger] agenda[i].call) by {
        agenda.filter_lemma(is_due(now));
        assert(agenda.filter(is_due(now)).contains(agenda[i]));
        let k = choose|k: int| 0 <= k < agenda.filter(is_due(now)).len() && agenda.filter(is_due(now))[k]
            == agenda[i];
        assert(due_calls(agenda, now)[k] == agenda[i].call);
    }
}

/// What stays on the agenda at the start of block `now` is every task not
/// due on it, in its order.
pub proof fn law_not_due_keeps_the_rest(agenda: Seq<TaskView>, now: BlockNumber)
    ensures
        not_due(agenda, now) == agenda.filter(is_not_due(now)),
    decreases agenda.len(),
{
    reveal(Seq::filter);
    if agenda.len() > 0 {
        law_not_due_keeps_the_rest(agenda.drop_last(), now);
    }
}

/// A call is scheduled, at the end of the agenda, whenever its block is after
/// the current one and no scheduled call has its name, whatever else is
/// scheduled (on the same block or any other); it is refused otherwise.
pub proof fn law_schedule_named(agenda: Seq<TaskView>, now: BlockNumber, task: TaskView)
    ensures
        now < task.when && (forall|i: int| 0 <= i < agenda.len() ==> #[trigger] agenda[i].name != task.name)
            ==> spec_schedule_named(agenda, now, task) == Ok::<Seq<TaskView>, SchedulerError>(agenda.push(task)),
        task.when <= now ==> spec_schedule_named(agenda, now, task) is Err,
        forall|i: int| 0 <= i < agenda.len() && #[trigger] agenda[i].name == task.name
            ==> spec_schedule_named(agenda, now, task) is Err,
{
}

} // verus!
