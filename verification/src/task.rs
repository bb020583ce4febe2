//! Tasks: descriptions of deferred work.
//!
//! A task is a value. Nothing happens until a pool is given it.

use vstd::prelude::*;
use std::time::Duration;
use crate::element::Element;
use crate::labels::IntoLabel;
use crate::list::reversed;
use crate::mapper::Mapper;

verus! {

/// One unit of deferred work. When it is done it has produced one message,
/// or failed.
pub enum Job<M, W> {
    /// Done at once, with this message.
    Ready(M),
    /// Done after this much time, with this message.
    Delayed(Duration, M),
    /// Work that only the driver of the pool can carry out.
    Work(W),
}

/// An instruction to the application rather than work to do.
#[verifier::reject_recursive_types(M)]
pub enum SpecialTask<M> {
    /// Nothing at all.
    Nothing,
    /// End the application.
    Stop,
    /// Replace the state by a fresh one.
    ResetState,
    /// Show this element, outside the view.
    Submit(Element<M>),
    /// Remove the element that has this label.
    Close(String),
}

/// An instruction as the application receives it.
#[verifier::reject_recursive_types(M)]
pub enum ApplicationDirective<M> {
    /// End the application.
    Stop,
    /// Replace the state by a fresh one.
    ResetState,
    /// Show this element, outside the view.
    Submit(Element<M>),
    /// Remove the element that has this label.
    Close(String),
}

impl<M> SpecialTask<M> {
    /// The directive that this instruction becomes; `Nothing` becomes none.
    pub open spec fn spec_directive(self) -> Option<ApplicationDirective<M>> {
        match self {
            SpecialTask::Nothing => None,
            SpecialTask::Stop => Some(ApplicationDirective::Stop),
            SpecialTask::ResetState => Some(ApplicationDirective::ResetState),
            SpecialTask::Submit(element) => Some(ApplicationDirective::Submit(element)),
            SpecialTask::Close(label) => Some(ApplicationDirective::Close(label)),
        }
    }

    /// The directive that this instruction becomes; `Nothing` becomes none.
    pub fn directive(self) -> (r: Option<ApplicationDirective<M>>)
        ensures
            r == self.spec_directive(),
    {
        match self {
            SpecialTask::Nothing => None,
            SpecialTask::Stop => Some(ApplicationDirective::Stop),
            SpecialTask::ResetState => Some(ApplicationDirective::ResetState),
            SpecialTask::Submit(element) => Some(ApplicationDirective::Submit(element)),
            SpecialTask::Close(label) => Some(ApplicationDirective::Close(label)),
        }
    }
}

/// A tree of deferred work.
#[verifier::reject_recursive_types(M)]
pub enum Task<M, W> {
    /// One job.
    Simple(Job<M, W>),
    /// Tasks that run side by side. The batch is done when all of them are.
    Batch(Vec<Task<M, W>>),
    /// Two tasks in a row: the second starts when the first is done.
    Then(Box<Task<M, W>>, Box<Task<M, W>>),
    /// An instruction, done as soon as it is passed on.
    Special(SpecialTask<M>),
}

/// The number of jobs in a list of tasks.
pub open spec fn leaves_of<M, W>(tasks: Seq<Task<M, W>>) -> nat
    decreases tasks, 0nat,
{
    if tasks.len() == 0 {
        0
    } else {
        leaves_of(tasks.drop_last()) + tasks.last().leaves()
    }
}

impl<M, W> Task<M, W> {
    /// The number of jobs in the tree, each of which owes one message.
    pub open spec fn leaves(self) -> nat
        decreases self, 1nat,
    {
        match self {
            Task::Simple(_) => 1,
            Task::Batch(tasks) => leaves_of(tasks@),
            Task::Then(first, second) => first.leaves() + second.leaves(),
            Task::Special(_) => 0,
        }
    }

    /// A task of one job: `work`, for the driver to carry out.
    pub fn new(work: W) -> (r: Self)
        ensures
            r == Task::<M, W>::Simple(Job::Work(work)),
    {
        Task::Simple(Job::Work(work))
    }

    /// `self` and `other`, side by side.
    pub fn batch(self, other: Task<M, W>) -> (r: Self)
        ensures
            r matches Task::Batch(tasks) && tasks@ == seq![self, other],
            r.leaves() == self.leaves() + other.leaves(),
    {
        let mut tasks = Vec::new();
        tasks.push(self);
        tasks.push(other);
        proof {
            let s = tasks@;
            assert(s =~= seq![self, other]);
            assert(s.drop_last() =~= seq![self]);
            assert(s.drop_last().drop_last() =~= Seq::<Task<M, W>>::empty());
            assert(leaves_of(s.drop_last().drop_last()) == 0);
            assert(leaves_of(s.drop_last()) == leaves_of(s.drop_last().drop_last())
                + self.leaves());
            assert(leaves_of(s) == leaves_of(s.drop_last()) + other.leaves());
        }
        Task::Batch(tasks)
    }

    /// `self`, and `next` once `self` is done.
    pub fn then(self, next: Task<M, W>) -> (r: Self)
        ensures
            r == Task::Then(Box::new(self), Box::new(next)),
    {
        Task::Then(Box::new(self), Box::new(next))
    }

    /// The instruction to end the application.
    pub fn stop() -> (r: Self)
        ensures
            r == Task::<M, W>::Special(SpecialTask::Stop),
    {
        Task::Special(SpecialTask::Stop)
    }

    /// A task that does nothing.
    pub fn none() -> (r: Self)
        ensures
            r == Task::<M, W>::Special(SpecialTask::Nothing),
    {
        Task::Special(SpecialTask::Nothing)
    }

    /// A job that gives `message` once `duration` has passed.
    pub fn wait(duration: Duration, message: M) -> (r: Self)
        ensures
            r == Task::<M, W>::Simple(Job::Delayed(duration, message)),
    {
        Task::Simple(Job::Delayed(duration, message))
    }

    /// The instruction to replace the state by a fresh one.
    pub fn reset_state() -> (r: Self)
        ensures
            r == Task::<M, W>::Special(SpecialTask::ResetState),
    {
        Task::Special(SpecialTask::ResetState)
    }

    /// A job that gives `message` at once.
    pub fn msg(message: M) -> (r: Self)
        ensures
            r == Task::<M, W>::Simple(Job::Ready(message)),
    {
        Task::Simple(Job::Ready(message))
    }

    /// The instruction to show `element`.
    pub fn submit(element: Element<M>) -> (r: Self)
        ensures
            r == Task::<M, W>::Special(SpecialTask::Submit(element)),
    {
        Task::Special(SpecialTask::Submit(element))
    }

    /// The instruction to remove the element labelled `label`.
    pub fn close<L: IntoLabel>(label: L) -> (r: Self)
        ensures
            r matches Task::Special(SpecialTask::Close(text)) && text@ == label.text(),
    {
        Task::Special(SpecialTask::Close(label.into_label()))
    }
}

impl<M: 'static + Send + Sync, W> Task<M, W> {
    /// Whether `out` is `self` with every message passed through `map`:
    /// the same tree, a message that waits in a job replaced by a result of
    /// `map`, work replaced by a result of `work`, an element to show
    /// replaced by the element mapped, and every other instruction as it was.
    pub open spec fn maps_to<N: 'static + Send + Sync, X, G: Fn(W, Mapper<M, N>) -> X>(
        self,
        map: Mapper<M, N>,
        work: G,
        out: Task<N, X>,
    ) -> bool
        decreases self,
    {
        match self {
            Task::Simple(Job::Ready(m)) => out matches Task::Simple(Job::Ready(n)) && map.relates(
                m,
                n,
            ),
            Task::Simple(Job::Delayed(d, m)) => out matches Task::Simple(Job::Delayed(e, n)) && e
                == d && map.relates(m, n),
            Task::Simple(Job::Work(w)) => out matches Task::Simple(Job::Work(x)) && work.ensures(
                (w, map),
                x,
            ),
            Task::Batch(tasks) => out matches Task::Batch(outs) && outs@.len() == tasks@.len()
                && forall|i: int|
                0 <= i < tasks@.len() ==> (#[trigger] tasks@[i]).maps_to(map, work, outs@[i]),
            Task::Then(first, second) => out matches Task::Then(a, b) && first.maps_to(
                map,
                work,
                *a,
            ) && second.maps_to(map, work, *b),
            Task::Special(SpecialTask::Nothing) => out == Task::<N, X>::Special(
                SpecialTask::Nothing,
            ),
            Task::Special(SpecialTask::Stop) => out == Task::<N, X>::Special(SpecialTask::Stop),
            Task::Special(SpecialTask::ResetState) => out == Task::<N, X>::Special(
                SpecialTask::ResetState,
            ),
            Task::Special(SpecialTask::Submit(element)) => out == Task::<N, X>::Special(
                SpecialTask::Submit(element.spec_map(map)),
            ),
            Task::Special(SpecialTask::Close(label)) => out == Task::<N, X>::Special(
                SpecialTask::Close(label),
            ),
        }
    }

    /// `self` with every message passed through `map`.
    ///
    /// `work` says what becomes of work that only the driver can carry out:
    /// it is given the work and the function, and returns work whose message
    /// has passed through the function.
    pub fn map<N: 'static + Send + Sync, X, G: Fn(W, Mapper<M, N>) -> X>(
        self,
        map: Mapper<M, N>,
        work: &G,
    ) -> (r: Task<N, X>)
        requires
            forall|w: W, m: Mapper<M, N>| work.requires((w, m)),
        ensures
            self.maps_to(map, *work, r),
            r.leaves() == self.leaves(),
        decreases self,
    {
        let ghost whole = self;
        match self {
            Task::Simple(Job::Ready(m)) => Task::Simple(Job::Ready(map.map(m))),
            Task::Simple(Job::Delayed(d, m)) => Task::Simple(Job::Delayed(d, map.map(m))),
            Task::Simple(Job::Work(w)) => Task::Simple(Job::Work(work(w, map))),
            Task::Batch(tasks) => {
                let ghost all = tasks@;
                let mut rest = reversed(tasks);
                let mut outs: Vec<Task<N, X>> = Vec::new();
                while rest.len() > 0
                    invariant
                        whole == self,
                        whole matches Task::Batch(v) && v@ == all,
                        forall|i: int|
                            0 <= i < all.len() ==> decreases_to!(whole => #[trigger] all[i]),
                        forall|w: W, m: Mapper<M, N>| work.requires((w, m)),
                        rest@.len() + outs@.len() == all.len(),
                        forall|i: int|
                            0 <= i < rest@.len() ==> rest@[i] == all[all.len() - 1 - i],
                        forall|i: int|
                            0 <= i < outs@.len() ==> (#[trigger] all[i]).maps_to(
                                map,
                                *work,
                                outs@[i],
                            ),
                        leaves_of(outs@) == leaves_of(all.take(outs@.len() as int)),
                    decreases rest.len(),
                {
                    let ghost done = outs@;
                    let next = rest.pop().unwrap();
                    assert(next == all[done.len() as int]);
                    let out = next.map(map.clone(), work);
                    outs.push(out);
                    proof {
                        lemma_leaves_of_push(done, out);
                        lemma_leaves_of_push(all.take(done.len() as int), next);
                        assert(all.take(done.len() as int).push(next) =~= all.take(
                            done.len() as int + 1,
                        ));
                    }
                }
                proof {
                    assert(all.take(all.len() as int) =~= all);
                }
                Task::Batch(outs)
            },
            Task::Then(first, second) => {
                let a = (*first).map(map.clone(), work);
                let b = (*second).map(map, work);
                Task::Then(Box::new(a), Box::new(b))
            },
            Task::Special(SpecialTask::Nothing) => Task::Special(SpecialTask::Nothing),
            Task::Special(SpecialTask::Stop) => Task::Special(SpecialTask::Stop),
            Task::Special(SpecialTask::ResetState) => Task::Special(SpecialTask::ResetState),
            Task::Special(SpecialTask::Submit(element)) => Task::Special(
                SpecialTask::Submit(element.map(map)),
            ),
            Task::Special(SpecialTask::Close(label)) => Task::Special(SpecialTask::Close(label)),
        }
    }
}

/// A list with one more task at its end has the jobs of both.
pub proof fn lemma_leaves_of_push<M, W>(tasks: Seq<Task<M, W>>, last: Task<M, W>)
    ensures
        leaves_of(tasks.push(last)) == leaves_of(tasks) + last.leaves(),
{
    assert(tasks.push(last).drop_last() =~= tasks);
}

} // verus!
