//! What holds of every task pool.

use vstd::prelude::*;
use crate::pool::{
    first_free, join, messages, occupy, release, settle, start, start_all, taken, Action,
    Outcome, Pending, PoolView,
};
use crate::pool_lemmas::{
    lemma_finished_wf, lemma_first_free_bounds, lemma_join, lemma_messages_add,
    lemma_settle_absent, lemma_settle_grows, lemma_settle_owes, lemma_settle_room,
    lemma_start_owes, lemma_start_room, lemma_submitted_wf,
};
use crate::task::{Job, Task};

verus! {

/// Work that is not done has a job that runs, and owes a message.
pub proof fn lemma_pending_runs<M, W>(pending: Pending<M, W>)
    ensures
        pending.ids().len() >= 1,
        pending.owed() >= 1,
    decreases pending,
{
    match pending {
        Pending::Leaf(_) => {},
        Pending::Both(a, b) => {
            lemma_pending_runs(*a);
            lemma_pending_runs(*b);
        },
        Pending::Before(first, _) => {
            lemma_pending_runs(*first);
        },
    }
}

/// A pool is idle if and only if it owes no message, and if and only if no
/// job runs: as long as a message is owed, a job runs whose end the pool
/// waits for.
pub proof fn law_idle_owes_nothing<M, W>(pool: PoolView<M, W>)
    ensures
        pool.idle() <==> pool.owed() == 0,
        pool.idle() <==> pool.running().len() == 0,
{
    if let Some(p) = pool.waiting {
        lemma_pending_runs(p);
    }
}

/// Giving a task to a pool raises what the pool owes by one message for each
/// job of the task, and passes no message on.
pub proof fn law_submit_owes<M, W>(pool: PoolView<M, W>, task: Task<M, W>)
    ensures
        pool.submitted(task).0.owed() == pool.owed() + task.leaves(),
        messages(pool.submitted(task).1) == 0,
{
    let o = start(task, pool.used);
    lemma_start_owes(task, pool.used);
    lemma_join(pool.waiting, o.pending);
}

/// The end of a job that runs passes on exactly one message, that of the
/// job, before anything else, and lowers what the pool owes by one.
pub proof fn law_finish_pays<M, W>(pool: PoolView<M, W>, id: usize, message: M)
    requires
        pool.wf(),
        pool.runs(id),
    ensures
        pool.finished(id, message).0.owed() + 1 == pool.owed(),
        messages(pool.finished(id, message).1) == 1,
        pool.finished(id, message).1.len() >= 1,
        pool.finished(id, message).1[0] == Action::<M, W>::Message(message),
{
    assert(pool.running().contains(id));
    let pending = pool.waiting->Some_0;
    let o = settle(pending, id, pool.used);
    lemma_settle_owes(pending, id, pool.used);
    let head = seq![Action::<M, W>::Message(message)];
    lemma_messages_add(head, o.actions);
    assert(head.drop_last().len() == 0);
    assert(messages(head.drop_last()) == 0);
    assert(messages(head) == 1);
}

/// News of a job that does not run changes nothing and asks nothing: a job
/// gives its message once.
pub proof fn law_finish_once<M, W>(pool: PoolView<M, W>, id: usize, message: M, again: M)
    requires
        pool.wf(),
    ensures
        !pool.runs(id) ==> pool.finished(id, message) == (pool, Seq::<Action<M, W>>::empty()),
        !pool.finished(id, message).0.runs(id),
        pool.finished(id, message).0.finished(id, again) == (
            pool.finished(id, message).0,
            Seq::<Action<M, W>>::empty(),
        ),
{
    if let Some(pending) = pool.waiting {
        lemma_settle_grows(pending, id, pool.used);
    } else {
        assert(!pool.running().contains(id));
    }
}

/// What can happen to a pool.
#[verifier::reject_recursive_types(M)]
pub enum PoolEvent<M, W> {
    /// A task is given to it.
    Submit(Task<M, W>),
    /// It hears that the job under this number is done, with this message.
    Finish(usize, M),
}

/// The pool after `event`, and what it asks of the driver.
pub open spec fn step<M, W>(pool: PoolView<M, W>, event: PoolEvent<M, W>) -> (
    PoolView<M, W>,
    Seq<Action<M, W>>,
) {
    match event {
        PoolEvent::Submit(task) => pool.submitted(task),
        PoolEvent::Finish(id, message) => pool.finished(id, message),
    }
}

/// The pool after `events`, one after the other, and all that it asked of
/// the driver on the way.
pub open spec fn run<M, W>(pool: PoolView<M, W>, events: Seq<PoolEvent<M, W>>) -> (
    PoolView<M, W>,
    Seq<Action<M, W>>,
)
    decreases events.len(),
{
    if events.len() == 0 {
        (pool, Seq::empty())
    } else {
        let before = run(pool, events.drop_last());
        let last = step(before.0, events.last());
        (last.0, before.1 + last.1)
    }
}

/// The number of jobs in the tasks that `events` give to a pool.
pub open spec fn jobs_given<M, W>(events: Seq<PoolEvent<M, W>>) -> nat
    decreases events.len(),
{
    if events.len() == 0 {
        0
    } else {
        jobs_given(events.drop_last()) + match events.last() {
            PoolEvent::Submit(task) => task.leaves(),
            PoolEvent::Finish(_, _) => 0,
        }
    }
}

/// A step gives no number back.
pub proof fn lemma_step_grows<M, W>(pool: PoolView<M, W>, event: PoolEvent<M, W>)
    ensures
        step(pool, event).0.used.len() >= pool.used.len(),
{
    match event {
        PoolEvent::Submit(task) => {
            lemma_start_owes(task, pool.used);
        },
        PoolEvent::Finish(id, _) => {
            if let Some(pending) = pool.waiting {
                lemma_settle_grows(pending, id, pool.used);
            }
        },
    }
}

/// A step takes at most one number for each job that it starts: the numbers
/// in the table and the jobs yet to start grow by no more than the jobs
/// given.
pub proof fn lemma_step_room<M, W>(pool: PoolView<M, W>, event: PoolEvent<M, W>)
    ensures
        step(pool, event).0.used.len() + step(pool, event).0.unstarted() <= pool.used.len()
            + pool.unstarted() + jobs_given(seq![event]),
{
    assert(seq![event].drop_last() =~= Seq::<PoolEvent<M, W>>::empty());
    assert(jobs_given(seq![event].drop_last()) == 0);
    match event {
        PoolEvent::Submit(task) => {
            lemma_start_room(task, pool.used);
        },
        PoolEvent::Finish(id, _) => {
            if let Some(pending) = pool.waiting {
                lemma_settle_room(pending, id, pool.used);
            }
        },
    }
}

/// A run takes at most one number for each job that it starts.
pub proof fn lemma_run_room<M, W>(pool: PoolView<M, W>, events: Seq<PoolEvent<M, W>>)
    ensures
        run(pool, events).0.used.len() + run(pool, events).0.unstarted() <= pool.used.len()
            + pool.unstarted() + jobs_given(events),
    decreases events.len(),
{
    if events.len() > 0 {
        let before = run(pool, events.drop_last());
        lemma_run_room(pool, events.drop_last());
        lemma_step_room(before.0, events.last());
        assert(seq![events.last()].drop_last() =~= Seq::<PoolEvent<M, W>>::empty());
        assert(jobs_given(seq![events.last()].drop_last()) == 0);
    }
}

/// One message for each job, and no other.
///
/// Whatever tasks a pool is given and in whatever order it hears that jobs
/// are done, the messages it has passed on and the messages it still owes
/// are together as many as it owed at first and the jobs it was given. News
/// of a job that does not run counts for nothing.
///
/// So a pool that was idle and is idle again has passed on exactly one
/// message for each job of each task it was given. The one condition is that
/// there are numbers for the jobs: the numbers in the table, the jobs that
/// wait to be started and the jobs given must together fit the machine.
pub proof fn law_one_message_per_job<M, W>(pool: PoolView<M, W>, events: Seq<PoolEvent<M, W>>)
    requires
        pool.wf(),
        pool.used.len() + pool.unstarted() + jobs_given(events) <= usize::MAX,
    ensures
        run(pool, events).0.wf(),
        run(pool, events).0.owed() + messages(run(pool, events).1) == pool.owed() + jobs_given(
            events,
        ),
        pool.idle() && run(pool, events).0.idle() ==> messages(run(pool, events).1)
            == jobs_given(events),
    decreases events.len(),
{
    lemma_run_room(pool, events);
    if events.len() > 0 {
        let before = run(pool, events.drop_last());
        let last = step(before.0, events.last());
        lemma_step_grows(before.0, events.last());
        law_one_message_per_job(pool, events.drop_last());
        lemma_messages_add(before.1, last.1);
        match events.last() {
            PoolEvent::Submit(task) => {
                lemma_submitted_wf(before.0, task);
                law_submit_owes(before.0, task);
            },
            PoolEvent::Finish(id, message) => {
                lemma_finished_wf(before.0, id, message);
                if before.0.runs(id) {
                    law_finish_pays(before.0, id, message);
                } else {
                    assert(messages(last.1) == 0);
                }
            },
        }
    }
    law_idle_owes_nothing(pool);
    law_idle_owes_nothing(run(pool, events).0);
}


/// A sequence starts with its first part and nothing else, as long as the
/// first part has to wait: the pool asks of the driver what the first part
/// alone would ask, the same jobs run, and the second part is kept, its
/// messages owed.
pub proof fn law_then_waits<M, W>(pool: PoolView<M, W>, first: Task<M, W>, second: Task<M, W>)
    requires
        start(first, pool.used).pending is Some,
    ensures
        pool.submitted(Task::Then(Box::new(first), Box::new(second))).1 == pool.submitted(
            first,
        ).1,
        pool.submitted(Task::Then(Box::new(first), Box::new(second))).0.used == pool.submitted(
            first,
        ).0.used,
        pool.submitted(Task::Then(Box::new(first), Box::new(second))).0.running()
            == pool.submitted(first).0.running(),
        pool.submitted(Task::Then(Box::new(first), Box::new(second))).0.owed() == pool.submitted(
            first,
        ).0.owed() + second.leaves(),
{
    let whole = Task::Then(Box::new(first), Box::new(second));
    let a = start(first, pool.used);
    let b = start(whole, pool.used);
    assert(b.pending == Some(Pending::Before(Box::new(a.pending->Some_0), second)));
    lemma_join(pool.waiting, a.pending);
    lemma_join(pool.waiting, b.pending);
}

/// A sequence goes on when its first part is done, and not before: the news
/// that a job is done starts the second part if and only if nothing of the
/// first part is left, and what the second part asks comes after all that the
/// first part asked.
pub proof fn law_then_resumes<M, W>(
    first: Pending<M, W>,
    second: Task<M, W>,
    id: usize,
    used: Seq<bool>,
)
    ensures
        settle(first, id, used).pending is Some ==> settle(
            Pending::Before(Box::new(first), second),
            id,
            used,
        ) == (Outcome {
            pending: Some(
                Pending::Before(Box::new(settle(first, id, used).pending->Some_0), second),
            ),
            actions: settle(first, id, used).actions,
            used: settle(first, id, used).used,
        }),
        settle(first, id, used).pending is None ==> settle(
            Pending::Before(Box::new(first), second),
            id,
            used,
        ) == (Outcome {
            pending: start(second, settle(first, id, used).used).pending,
            actions: settle(first, id, used).actions + start(
                second,
                settle(first, id, used).used,
            ).actions,
            used: start(second, settle(first, id, used).used).used,
        }),
{
}

/// The message of a job comes before anything that follows the job in a
/// sequence.
///
/// A pool that is given a job and then a task starts the job and nothing
/// else. When it hears that the job is done it passes the message of the job
/// on first, and only then asks what the task starts with.
pub proof fn law_then_message_first<M, W>(
    pool: PoolView<M, W>,
    job: Job<M, W>,
    second: Task<M, W>,
    message: M,
)
    requires
        pool.wf(),
        pool.used.len() < usize::MAX,
    ensures
        ({
            let id = first_free(pool.used) as usize;
            let task = Task::Then(Box::new(Task::Simple(job)), Box::new(second));
            let given = pool.submitted(task);
            let done = given.0.finished(id, message);
            let next = start(second, given.0.used);
            &&& given.1 == seq![Action::Spawn(id, job)]
            &&& given.0.owed() == pool.owed() + 1 + second.leaves()
            &&& done.1 == seq![Action::Message(message)] + next.actions
            &&& done.0.waiting == join(pool.waiting, next.pending)
            &&& done.0.used == release(next.used, id as int)
        }),
{
    let id = first_free(pool.used) as usize;
    let task = Task::Then(Box::new(Task::Simple(job)), Box::new(second));
    let given = pool.submitted(task);
    let next = start(second, given.0.used);
    reveal_with_fuel(settle, 3);
    lemma_first_free_bounds(pool.used);
    let mine = Pending::Before(Box::new(Pending::Leaf(id)), second);
    assert(start(Task::Simple(job), pool.used).pending == Some(Pending::<M, W>::Leaf(id)));
    assert(start(task, pool.used).pending == Some(mine));
    assert(given.0.used == occupy(pool.used, id as int));
    assert(given.0.runs(id));
    assert(!pool.running().contains(id));
    assert(settle(Pending::<M, W>::Leaf(id), id, given.0.used).pending is None);
    assert(settle(mine, id, given.0.used).actions =~= next.actions);
    match pool.waiting {
        Some(w) => {
            lemma_settle_absent(w, id, given.0.used);
            let both = Pending::Both(Box::new(w), Box::new(mine));
            assert(given.0.waiting == Some(both));
            assert(settle(both, id, given.0.used).actions =~= next.actions);
            lemma_pending_runs(w);
        },
        None => {
            assert(given.0.waiting == Some(mine));
        },
    }
    let done = given.0.finished(id, message);
    assert(given.1 =~= seq![Action::Spawn(id, job)]);
    assert(given.0.owed() == pool.owed() + 1 + second.leaves()) by {
        lemma_join(pool.waiting, Some(mine));
        assert(given.0.waiting == join(pool.waiting, Some(mine)));
        assert(Pending::<M, W>::Leaf(id).owed() == 1);
        assert(mine.owed() == Pending::<M, W>::Leaf(id).owed() + second.leaves());
    }
    assert(done.1 =~= seq![Action::Message(message)] + next.actions);
    assert(done.0.waiting == join(pool.waiting, next.pending));
    assert(done.0.used == release(next.used, id as int));
}

/// The members of a batch all start at once: the pool asks of the driver
/// what the first member asks and then what the second asks, in the call that
/// takes the batch in, and waits for both.
pub proof fn law_batch_starts_all<M, W>(
    used: Seq<bool>,
    batch: Task<M, W>,
    a: Task<M, W>,
    b: Task<M, W>,
)
    requires
        batch matches Task::Batch(tasks) && tasks@ == seq![a, b],
    ensures
        start(batch, used).actions == start(a, used).actions + start(
            b,
            start(a, used).used,
        ).actions,
        start(batch, used).pending == join(
            start(a, used).pending,
            start(b, start(a, used).used).pending,
        ),
        start(batch, used).used == start(b, start(a, used).used).used,
{
    let tasks = seq![a, b];
    assert(tasks.drop_last() =~= seq![a]);
    assert(tasks.drop_last().drop_last() =~= Seq::<Task<M, W>>::empty());
    let none = start_all(tasks.drop_last().drop_last(), used);
    assert(none.pending is None && none.used == used && none.actions.len() == 0);
    let one = start_all(tasks.drop_last(), used);
    assert(one.actions =~= start(a, used).actions);
    assert(one.pending == start(a, used).pending);
    assert(one.used == start(a, used).used);
    assert(start(batch, used) == start_all(tasks, used));
}

/// Two jobs side by side give both their messages, whichever ends first.
///
/// A pool that is given a batch of two jobs starts both at once. Whichever
/// of them it hears of first, it passes that message on and goes on waiting
/// for the other; when it has heard of both it waits for what it waited for
/// before the batch, and has passed on the two messages and nothing else.
pub proof fn law_batch_either_order<M, W>(
    pool: PoolView<M, W>,
    batch: Task<M, W>,
    ja: Job<M, W>,
    jb: Job<M, W>,
    ma: M,
    mb: M,
)
    requires
        pool.wf(),
        pool.used.len() + 1 < usize::MAX,
        batch matches Task::Batch(tasks) && tasks@ == seq![Task::Simple(ja), Task::Simple(jb)],
    ensures
        ({
            let a = first_free(pool.used) as usize;
            let b = first_free(occupy(pool.used, a as int)) as usize;
            let given = pool.submitted(batch);
            let a_then_b = given.0.finished(a, ma).0.finished(b, mb);
            let b_then_a = given.0.finished(b, mb).0.finished(a, ma);
            &&& a != b
            &&& given.1 == seq![Action::Spawn(a, ja), Action::Spawn(b, jb)]
            &&& given.0.finished(a, ma).1 == seq![Action::<M, W>::Message(ma)]
            &&& a_then_b.1 == seq![Action::<M, W>::Message(mb)]
            &&& a_then_b.0.waiting == pool.waiting
            &&& given.0.finished(b, mb).1 == seq![Action::<M, W>::Message(mb)]
            &&& b_then_a.1 == seq![Action::<M, W>::Message(ma)]
            &&& b_then_a.0.waiting == pool.waiting
        }),
{
    let a = first_free(pool.used) as usize;
    let used_a = occupy(pool.used, a as int);
    let b = first_free(used_a) as usize;
    let used_ab = occupy(used_a, b as int);
    reveal_with_fuel(settle, 3);
    lemma_first_free_bounds(pool.used);
    lemma_first_free_bounds(used_a);
    let ta = Task::Simple(ja);
    let tb = Task::Simple(jb);
    law_batch_starts_all(pool.used, batch, ta, tb);
    let given = pool.submitted(batch);
    assert(given.1 =~= seq![Action::Spawn(a, ja), Action::Spawn(b, jb)]);
    let la = Pending::<M, W>::Leaf(a);
    let lb = Pending::<M, W>::Leaf(b);
    let mine = Pending::Both(Box::new(la), Box::new(lb));
    assert(start(batch, pool.used).pending == Some(mine));
    assert(given.0.used == used_ab);
    assert(taken(used_ab, a as int) && taken(used_ab, b as int));
    assert(!pool.running().contains(a));
    assert(!pool.running().contains(b)) by {
        if pool.running().contains(b) {
            assert(taken(pool.used, b as int));
            assert(taken(used_a, b as int));
        }
    }
    let e = Seq::<Action<M, W>>::empty();
    // the batch alone
    assert(settle(mine, a, used_ab) == (Outcome { pending: Some(lb), actions: e, used: used_ab }))
        by {
        assert(settle(mine, a, used_ab).actions =~= e);
    }
    assert(settle(mine, b, used_ab) == (Outcome { pending: Some(la), actions: e, used: used_ab }))
        by {
        assert(settle(mine, b, used_ab).actions =~= e);
    }
    let minus_a = release(used_ab, a as int);
    let minus_b = release(used_ab, b as int);
    assert(taken(minus_a, b as int) && taken(minus_b, a as int));
    match pool.waiting {
        Some(w) => {
            lemma_pending_runs(w);
            let both = Pending::Both(Box::new(w), Box::new(mine));
            assert(given.0.waiting == Some(both));
            lemma_settle_absent(w, a, used_ab);
            lemma_settle_absent(w, b, used_ab);
            lemma_settle_absent(w, a, minus_b);
            lemma_settle_absent(w, b, minus_a);
            assert(settle(both, a, used_ab).actions =~= e);
            assert(settle(both, b, used_ab).actions =~= e);
            let wb = Pending::Both(Box::new(w), Box::new(lb));
            let wa = Pending::Both(Box::new(w), Box::new(la));
            assert(settle(both, a, used_ab).pending == Some(wb));
            assert(settle(both, b, used_ab).pending == Some(wa));
            assert(settle(wb, b, minus_a).actions =~= e);
            assert(settle(wa, a, minus_b).actions =~= e);
            assert(settle(wb, b, minus_a).pending == Some(w));
            assert(settle(wa, a, minus_b).pending == Some(w));
        },
        None => {
            assert(given.0.waiting == Some(mine));
        },
    }
    assert(given.0.finished(a, ma).1 =~= seq![Action::<M, W>::Message(ma)]);
    assert(given.0.finished(b, mb).1 =~= seq![Action::<M, W>::Message(mb)]);
    assert(given.0.finished(a, ma).0.finished(b, mb).1 =~= seq![Action::<M, W>::Message(mb)]);
    assert(given.0.finished(b, mb).0.finished(a, ma).1 =~= seq![Action::<M, W>::Message(ma)]);
}


} // verus!
