//! The task pool: what a task asks of the outside world, and in which order.
//!
//! The pool runs nothing itself. It is given a task, or the news that a job
//! is done, and answers with the actions for its driver to carry out: jobs to
//! start, messages and directives to pass on. A sequence waits for its first
//! part, and a batch for all its members, inside the pool.
//!
//! A task is done when all its jobs are done and all its instructions have
//! been passed on; that holds for a batch or an instruction at the head of a
//! sequence as for a job.

use vstd::prelude::*;
use crate::list::reversed;
use crate::pool_lemmas::{lemma_finished_wf, lemma_first_free, lemma_settle_owes, lemma_submitted_wf};
use crate::pool_laws::{law_finish_once, law_finish_pays, law_idle_owes_nothing, law_submit_owes};
use crate::task::{ApplicationDirective, Job, Task};

verus! {

/// What the pool asks of its driver.
#[verifier::reject_recursive_types(M)]
pub enum Action<M, W> {
    /// Start this job, and report under this number when it is done.
    Spawn(usize, Job<M, W>),
    /// Pass this message on to the application.
    Message(M),
    /// Pass this directive on to the application.
    Directive(ApplicationDirective<M>),
}

/// Work that has started and is not done.
#[verifier::reject_recursive_types(M)]
pub enum Pending<M, W> {
    /// A job that runs under this number.
    Leaf(usize),
    /// Two parts that run side by side.
    Both(Box<Pending<M, W>>, Box<Pending<M, W>>),
    /// A part that runs, and the task to start when it is done.
    Before(Box<Pending<M, W>>, Task<M, W>),
}

impl<M, W> Pending<M, W> {
    /// The numbers of the jobs that run, from left to right.
    pub open spec fn ids(self) -> Seq<usize>
        decreases self,
    {
        match self {
            Pending::Leaf(id) => seq![id],
            Pending::Both(a, b) => a.ids() + b.ids(),
            Pending::Before(first, _) => first.ids(),
        }
    }

    /// The number of jobs that have yet to start: those of the tasks that
    /// wait for a part to be done.
    pub open spec fn unstarted(self) -> nat
        decreases self,
    {
        match self {
            Pending::Leaf(_) => 0,
            Pending::Both(a, b) => a.unstarted() + b.unstarted(),
            Pending::Before(first, next) => first.unstarted() + next.leaves(),
        }
    }

    /// The number of messages still owed: one for each job that runs, and
    /// one for each job of a task that has yet to start.
    pub open spec fn owed(self) -> nat
        decreases self,
    {
        match self {
            Pending::Leaf(_) => 1,
            Pending::Both(a, b) => a.owed() + b.owed(),
            Pending::Before(first, next) => first.owed() + next.leaves(),
        }
    }
}

/// The number of jobs that `pending` has yet to start.
pub open spec fn unstarted_of<M, W>(pending: Option<Pending<M, W>>) -> nat {
    match pending {
        Some(p) => p.unstarted(),
        None => 0,
    }
}

/// The numbers of the jobs that run in `pending`.
pub open spec fn ids_of<M, W>(pending: Option<Pending<M, W>>) -> Seq<usize> {
    match pending {
        Some(p) => p.ids(),
        None => Seq::empty(),
    }
}

/// The number of messages that `pending` still owes.
pub open spec fn owed_of<M, W>(pending: Option<Pending<M, W>>) -> nat {
    match pending {
        Some(p) => p.owed(),
        None => 0,
    }
}

/// Two bodies of work side by side.
pub open spec fn join<M, W>(a: Option<Pending<M, W>>, b: Option<Pending<M, W>>) -> Option<
    Pending<M, W>,
> {
    match (a, b) {
        (None, _) => b,
        (_, None) => a,
        (Some(p), Some(q)) => Some(Pending::Both(Box::new(p), Box::new(q))),
    }
}

/// The smallest number that `used` does not mark as taken.
pub open spec fn first_free(used: Seq<bool>) -> int
    decreases used.len(),
{
    if used.len() == 0 || !used.first() {
        0
    } else {
        1 + first_free(used.drop_first())
    }
}

/// `used` with `id` marked as taken.
pub open spec fn occupy(used: Seq<bool>, id: int) -> Seq<bool> {
    if 0 <= id < used.len() {
        used.update(id, true)
    } else {
        used.push(true)
    }
}

/// `used` with `id` marked as free.
pub open spec fn release(used: Seq<bool>, id: int) -> Seq<bool> {
    if 0 <= id < used.len() {
        used.update(id, false)
    } else {
        used
    }
}

/// What starting or advancing work comes to.
#[verifier::reject_recursive_types(M)]
pub struct Outcome<M, W> {
    /// What is left to wait for.
    pub pending: Option<Pending<M, W>>,
    /// What the driver is asked to do, in order.
    pub actions: Seq<Action<M, W>>,
    /// The numbers taken afterwards.
    pub used: Seq<bool>,
}

/// What starting each of `tasks` comes to, one after the other.
pub open spec fn start_all<M, W>(tasks: Seq<Task<M, W>>, used: Seq<bool>) -> Outcome<M, W>
    decreases tasks, 0nat,
{
    if tasks.len() == 0 {
        Outcome { pending: None, actions: Seq::empty(), used }
    } else {
        let front = start_all(tasks.drop_last(), used);
        let last = start(tasks.last(), front.used);
        Outcome {
            pending: join(front.pending, last.pending),
            actions: front.actions + last.actions,
            used: last.used,
        }
    }
}

/// What starting `task` comes to, when the numbers in `used` are taken.
///
/// An instruction is passed on at once. A job gets the smallest free number
/// and is handed to the driver. The members of a batch all start, in order.
/// Of a sequence the first part starts; the second starts too if nothing of
/// the first is left to wait for, and is kept otherwise.
pub open spec fn start<M, W>(task: Task<M, W>, used: Seq<bool>) -> Outcome<M, W>
    decreases task, 1nat,
{
    match task {
        Task::Special(special) => Outcome {
            pending: None,
            actions: match special.spec_directive() {
                Some(d) => seq![Action::Directive(d)],
                None => Seq::empty(),
            },
            used,
        },
        Task::Simple(job) => {
            let id = first_free(used);
            Outcome {
                pending: Some(Pending::Leaf(id as usize)),
                actions: seq![Action::Spawn(id as usize, job)],
                used: occupy(used, id),
            }
        },
        Task::Batch(tasks) => start_all(tasks@, used),
        Task::Then(first, second) => {
            let head = start(*first, used);
            match head.pending {
                Some(p) => Outcome {
                    pending: Some(Pending::Before(Box::new(p), *second)),
                    actions: head.actions,
                    used: head.used,
                },
                None => {
                    let tail = start(*second, head.used);
                    Outcome {
                        pending: tail.pending,
                        actions: head.actions + tail.actions,
                        used: tail.used,
                    }
                },
            }
        },
    }
}

/// What the news that job `id` is done comes to for `pending`.
///
/// The job leaves. A sequence whose first part is thereby done starts its
/// second task; two parts side by side are done when both are.
pub open spec fn settle<M, W>(pending: Pending<M, W>, id: usize, used: Seq<bool>) -> Outcome<M, W>
    decreases pending,
{
    match pending {
        Pending::Leaf(leaf) => Outcome {
            pending: if leaf == id {
                None
            } else {
                Some(pending)
            },
            actions: Seq::empty(),
            used,
        },
        Pending::Both(a, b) => {
            let left = settle(*a, id, used);
            let right = settle(*b, id, left.used);
            Outcome {
                pending: join(left.pending, right.pending),
                actions: left.actions + right.actions,
                used: right.used,
            }
        },
        Pending::Before(first, next) => {
            let head = settle(*first, id, used);
            match head.pending {
                Some(p) => Outcome {
                    pending: Some(Pending::Before(Box::new(p), next)),
                    actions: head.actions,
                    used: head.used,
                },
                None => {
                    let tail = start(next, head.used);
                    Outcome {
                        pending: tail.pending,
                        actions: head.actions + tail.actions,
                        used: tail.used,
                    }
                },
            }
        },
    }
}

/// Takes the smallest free number.
fn allocate(used: &mut Vec<bool>) -> (id: usize)
    ensures
        id == first_free(old(used)@),
        final(used)@ == occupy(old(used)@, id as int),
{
    let mut i: usize = 0;
    while i < used.len() && used[i]
        invariant
            i <= used.len(),
            *used == *old(used),
            forall|j: int| 0 <= j < i ==> used@[j],
        decreases used.len() - i,
    {
        i += 1;
    }
    proof {
        lemma_first_free(used@, i as int);
    }
    if i < used.len() {
        used.set(i, true);
    } else {
        used.push(true);
    }
    i
}

/// Two bodies of work side by side.
fn join_parts<M, W>(a: Option<Pending<M, W>>, b: Option<Pending<M, W>>) -> (r: Option<
    Pending<M, W>,
>)
    ensures
        r == join(a, b),
{
    match a {
        None => b,
        Some(p) => match b {
            None => Some(p),
            Some(q) => Some(Pending::Both(Box::new(p), Box::new(q))),
        },
    }
}

/// Starts `task`: takes numbers for its jobs and adds to `actions` what the
/// driver is asked to do. Returns what is left to wait for.
fn begin<M, W>(task: Task<M, W>, used: &mut Vec<bool>, actions: &mut Vec<Action<M, W>>) -> (r:
    Option<Pending<M, W>>)
    ensures
        r == start(task, old(used)@).pending,
        final(used)@ == start(task, old(used)@).used,
        final(actions)@ == old(actions)@ + start(task, old(used)@).actions,
    decreases task,
{
    match task {
        Task::Special(special) => {
            match special.directive() {
                Some(d) => {
                    actions.push(Action::Directive(d));
                    assert(actions@ =~= old(actions)@ + seq![Action::<M, W>::Directive(d)]);
                },
                None => {
                    assert(actions@ =~= old(actions)@ + Seq::<Action<M, W>>::empty());
                },
            }
            None
        },
        Task::Simple(job) => {
            let id = allocate(used);
            actions.push(Action::Spawn(id, job));
            assert(actions@ =~= old(actions)@ + seq![Action::Spawn(id, job)]);
            Some(Pending::Leaf(id))
        },
        Task::Batch(tasks) => {
            let ghost all = tasks@;
            let mut rest = reversed(tasks);
            let mut pending: Option<Pending<M, W>> = None;
            let ghost mut done: int = 0;
            assert(all.take(0) =~= Seq::<Task<M, W>>::empty());
            assert(actions@ =~= old(actions)@ + Seq::<Action<M, W>>::empty());
            while rest.len() > 0
                invariant
                    task matches Task::Batch(v) && v@ == all,
                    forall|i: int| 0 <= i < all.len() ==> decreases_to!(task => #[trigger] all[i]),
                    0 <= done <= all.len(),
                    rest@.len() + done == all.len(),
                    forall|i: int| 0 <= i < rest@.len() ==> rest@[i] == all[all.len() - 1 - i],
                    pending == start_all(all.take(done), old(used)@).pending,
                    used@ == start_all(all.take(done), old(used)@).used,
                    actions@ == old(actions)@ + start_all(all.take(done), old(used)@).actions,
                decreases rest.len(),
            {
                let next = rest.pop().unwrap();
                assert(next == all[done]);
                let ghost before = start_all(all.take(done), old(used)@);
                let part = begin(next, used, actions);
                pending = join_parts(pending, part);
                proof {
                    let grown = all.take(done + 1);
                    assert(grown.drop_last() =~= all.take(done));
                    assert(grown.last() == next);
                    assert(actions@ =~= old(actions)@ + (before.actions + start(
                        next,
                        before.used,
                    ).actions));
                    done = done + 1;
                }
            }
            assert(all.take(all.len() as int) =~= all);
            pending
        },
        Task::Then(first, second) => {
            let ghost head = start(*first, old(used)@);
            match begin(*first, used, actions) {
                Some(p) => Some(Pending::Before(Box::new(p), *second)),
                None => {
                    let r = begin(*second, used, actions);
                    assert(actions@ =~= old(actions)@ + (head.actions + start(
                        *second,
                        head.used,
                    ).actions));
                    r
                },
            }
        },
    }
}

/// Takes in the news that job `id` is done: the job leaves `pending`, and
/// what was waiting for it starts. Returns what is left to wait for.
fn advance<M, W>(
    pending: Pending<M, W>,
    id: usize,
    used: &mut Vec<bool>,
    actions: &mut Vec<Action<M, W>>,
) -> (r: Option<Pending<M, W>>)
    ensures
        r == settle(pending, id, old(used)@).pending,
        final(used)@ == settle(pending, id, old(used)@).used,
        final(actions)@ == old(actions)@ + settle(pending, id, old(used)@).actions,
    decreases pending,
{
    match pending {
        Pending::Leaf(leaf) => {
            assert(actions@ =~= old(actions)@ + Seq::<Action<M, W>>::empty());
            if leaf == id {
                None
            } else {
                Some(Pending::Leaf(leaf))
            }
        },
        Pending::Both(a, b) => {
            let ghost left = settle(*a, id, old(used)@);
            let l = advance(*a, id, used, actions);
            let r = advance(*b, id, used, actions);
            assert(actions@ =~= old(actions)@ + (left.actions + settle(
                *b,
                id,
                left.used,
            ).actions));
            join_parts(l, r)
        },
        Pending::Before(first, next) => {
            let ghost head = settle(*first, id, old(used)@);
            match advance(*first, id, used, actions) {
                Some(p) => Some(Pending::Before(Box::new(p), next)),
                None => {
                    let r = begin(next, used, actions);
                    assert(actions@ =~= old(actions)@ + (head.actions + start(
                        next,
                        head.used,
                    ).actions));
                    r
                },
            }
        },
    }
}

/// Whether `used` marks `k` as taken.
pub open spec fn taken(used: Seq<bool>, k: int) -> bool {
    0 <= k < used.len() && used[k]
}

/// The number of messages among `actions`.
pub open spec fn messages<M, W>(actions: Seq<Action<M, W>>) -> nat
    decreases actions.len(),
{
    if actions.len() == 0 {
        0
    } else {
        messages(actions.drop_last()) + if actions.last() is Message {
            1nat
        } else {
            0nat
        }
    }
}

/// What a pool holds: the work that has started and is not done, and the
/// numbers that its jobs run under.
#[verifier::reject_recursive_types(M)]
pub struct PoolView<M, W> {
    pub waiting: Option<Pending<M, W>>,
    pub used: Seq<bool>,
}

impl<M, W> PoolView<M, W> {
    /// The numbers of the jobs that run.
    pub open spec fn running(self) -> Seq<usize> {
        ids_of(self.waiting)
    }

    /// Whether a job runs under `id`.
    pub open spec fn runs(self, id: usize) -> bool {
        taken(self.used, id as int)
    }

    /// The number of messages still owed.
    pub open spec fn owed(self) -> nat {
        owed_of(self.waiting)
    }

    /// The number of jobs that have yet to start.
    pub open spec fn unstarted(self) -> nat {
        unstarted_of(self.waiting)
    }

    /// Whether nothing is left to wait for.
    pub open spec fn idle(self) -> bool {
        self.waiting is None
    }

    /// Whether the numbers taken are those of the jobs that run, each job
    /// under a number of its own.
    pub open spec fn wf(self) -> bool {
        &&& self.used.len() <= usize::MAX
        &&& self.running().no_duplicates()
        &&& forall|k: usize|
            #![trigger taken(self.used, k as int)]
            #![trigger self.running().contains(k)]
            taken(self.used, k as int) <==> self.running().contains(k)
    }

    /// The pool after `task` was given to it, and what it asks of the driver.
    pub open spec fn submitted(self, task: Task<M, W>) -> (PoolView<M, W>, Seq<Action<M, W>>) {
        let o = start(task, self.used);
        (PoolView { waiting: join(self.waiting, o.pending), used: o.used }, o.actions)
    }

    /// The pool after the news that job `id` is done with `message`, and what
    /// it asks of the driver: to pass the message on, and then whatever the
    /// work that waited for the job starts with. News of a job that does not
    /// run changes nothing and asks nothing.
    pub open spec fn finished(self, id: usize, message: M) -> (
        PoolView<M, W>,
        Seq<Action<M, W>>,
    ) {
        match self.waiting {
            Some(pending) if self.runs(id) => {
                let o = settle(pending, id, self.used);
                (
                    PoolView { waiting: o.pending, used: release(o.used, id as int) },
                    seq![Action::Message(message)] + o.actions,
                )
            },
            _ => (self, Seq::empty()),
        }
    }
}

/// The execution engine for tasks, as a state machine.
///
/// [`TaskPool::submit`] takes a task in and [`TaskPool::finish`] the news
/// that a job is done. Each answers with the actions that the driver is to
/// carry out, in order.
#[verifier::reject_recursive_types(M)]
pub struct TaskPool<M, W> {
    waiting: Option<Pending<M, W>>,
    used: Vec<bool>,
}

impl<M, W> View for TaskPool<M, W> {
    type V = PoolView<M, W>;

    closed spec fn view(&self) -> PoolView<M, W> {
        PoolView { waiting: self.waiting, used: self.used@ }
    }
}

impl<M, W> TaskPool<M, W> {
    #[verifier::type_invariant]
    spec fn well_formed(self) -> bool {
        self@.wf()
    }

    /// A pool with nothing to wait for.
    pub fn new() -> (r: Self)
        ensures
            r@.idle(),
            r@.used == Seq::<bool>::empty(),
            r@.wf(),
    {
        let r = TaskPool { waiting: None, used: Vec::new() };
        assert(r@.running() =~= Seq::<usize>::empty());
        r
    }

    /// Whether nothing is left to wait for: every job that was started is
    /// done and no task waits for another.
    pub fn is_idle(&self) -> (r: bool)
        ensures
            r == self@.idle(),
    {
        self.waiting.is_none()
    }

    /// Whether a job runs under `id`.
    pub fn runs(&self, id: usize) -> (r: bool)
        ensures
            r == self@.runs(id),
    {
        id < self.used.len() && self.used[id]
    }

    /// Takes `task` in and says what it asks of the driver.
    ///
    /// Instructions are passed on and jobs are started, in the order of the
    /// tree, as far as the task can go without waiting: a sequence stops at
    /// its first part that has a job in it.
    ///
    /// No message is passed on yet: the pool owes one more message for each
    /// job of the task.
    pub fn submit(&mut self, task: Task<M, W>) -> (actions: Vec<Action<M, W>>)
        ensures
            final(self)@ == old(self)@.submitted(task).0,
            actions@ == old(self)@.submitted(task).1,
            final(self)@.wf(),
            final(self)@.owed() == old(self)@.owed() + task.leaves(),
            messages(actions@) == 0,
    {
        proof {
            use_type_invariant(&*self);
            law_submit_owes(self@, task);
        }
        let mut held = TaskPool::new();
        std::mem::swap(self, &mut held);
        let TaskPool { waiting, used } = held;
        let mut used = used;
        let mut actions = Vec::new();
        let started = begin(task, &mut used, &mut actions);
        let waiting = join_parts(waiting, started);
        proof {
            assert(actions@ =~= old(self)@.submitted(task).1);
            assert(used@.len() == used.len());
            assert((PoolView { waiting, used: used@ }) == old(self)@.submitted(task).0);
            lemma_submitted_wf(old(self)@, task);
        }
        *self = TaskPool { waiting, used };
        actions
    }

    /// Takes in the news that job `id` is done with `message`, and says what
    /// that asks of the driver: first to pass the message on, then whatever
    /// the work that waited for the job starts with.
    ///
    /// The number is free again afterwards, and is given to no job that
    /// starts in this call. News of a job that does not run is ignored.
    ///
    /// So each job gives exactly one message: the end of a job that runs
    /// passes on that one message and lowers what the pool owes by one, and
    /// the pool is idle if and only if it owes nothing.
    pub fn finish(&mut self, id: usize, message: M) -> (actions: Vec<Action<M, W>>)
        ensures
            final(self)@ == old(self)@.finished(id, message).0,
            actions@ == old(self)@.finished(id, message).1,
            final(self)@.wf(),
            old(self)@.runs(id) ==> final(self)@.owed() + 1 == old(self)@.owed() && messages(
                actions@,
            ) == 1 && actions@[0] == Action::<M, W>::Message(message),
            !old(self)@.runs(id) ==> final(self)@ == old(self)@ && actions@.len() == 0,
            !final(self)@.runs(id),
            final(self)@.idle() <==> final(self)@.owed() == 0,
    {
        proof {
            use_type_invariant(&*self);
            if self@.runs(id) {
                law_finish_pays(self@, id, message);
            }
            law_finish_once(self@, id, message, message);
            law_idle_owes_nothing(self@.finished(id, message).0);
        }
        let mut actions = Vec::new();
        if !self.runs(id) {
            return actions;
        }
        let mut held = TaskPool::new();
        std::mem::swap(self, &mut held);
        let TaskPool { waiting, used } = held;
        let mut used = used;
        match waiting {
            Some(pending) => {
                actions.push(Action::Message(message));
                let left = advance(pending, id, &mut used, &mut actions);
                proof {
                    lemma_settle_owes(pending, id, old(self)@.used);
                }
                used.set(id, false);
                proof {
                    assert(actions@ =~= old(self)@.finished(id, message).1);
                    assert(used@.len() == used.len());
                    assert((PoolView { waiting: left, used: used@ }) == old(self)@.finished(
                        id,
                        message,
                    ).0);
                    lemma_finished_wf(old(self)@, id, message);
                }
                *self = TaskPool { waiting: left, used };
            },
            None => {
                *self = TaskPool { waiting: None, used };
            },
        }
        actions
    }
}

/// The message that a job's end comes to: the message it gave, or what
/// `on_error` makes of its failure.
pub fn resolve<M, E, F: Fn(E) -> M>(outcome: Result<M, E>, on_error: &F) -> (message: M)
    requires
        forall|e: E| on_error.requires((e,)),
    ensures
        match outcome {
            Ok(m) => message == m,
            Err(e) => on_error.ensures((e,), message),
        },
{
    match outcome {
        Ok(m) => m,
        Err(e) => on_error(e),
    }
}

} // verus!
