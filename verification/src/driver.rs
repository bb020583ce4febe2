//! Carrying out what the pool and the application loop ask, as far as a
//! mailbox can: messages, directives, tasks, elements and labels are put in
//! the mailbox they belong to. Starting the jobs is left to the caller.
//!
//! A mailbox whose consumer is gone takes nothing. That is no failure here:
//! what it would have taken is dropped and counted.

use vstd::prelude::*;
use crate::application::Command;
use crate::element::Element;
use crate::mailbox::{failures, lemma_failed_bound, MailboxError, Submitter};
use crate::pool::Action;
use crate::list::reversed;
use crate::task::{ApplicationDirective, Job, Task};

verus! {

/// The jobs that `actions` ask to start, each with its number, in order.
pub open spec fn spawns<M, W>(actions: Seq<Action<M, W>>) -> Seq<(usize, Job<M, W>)>
    decreases actions.len(),
{
    if actions.len() == 0 {
        Seq::empty()
    } else {
        let front = spawns(actions.drop_last());
        match actions.last() {
            Action::Spawn(id, job) => front.push((id, job)),
            _ => front,
        }
    }
}

/// What is left of a list of actions once the mailboxes have had their part.
#[verifier::reject_recursive_types(M)]
pub struct Forwarded<M, W> {
    /// The jobs to start, each with its number.
    pub jobs: Vec<(usize, Job<M, W>)>,
    /// How many messages and directives no mailbox took.
    pub lost: usize,
}

/// Puts each message of `actions` in `messages` and each directive in
/// `directives`, in order, and returns the jobs to start.
pub fn forward<M: 'static + Send + Sync, W>(
    actions: Vec<Action<M, W>>,
    messages: &Submitter<M>,
    directives: &Submitter<ApplicationDirective<M>>,
) -> (r: Forwarded<M, W>)
    ensures
        r.jobs@ == spawns(actions@),
        r.lost + r.jobs@.len() <= actions@.len(),
{
    let ghost all = actions@;
    assert(all.len() == actions.len());
    let mut rest = reversed(actions);
    let mut jobs: Vec<(usize, Job<M, W>)> = Vec::new();
    let mut lost: usize = 0;
    let ghost mut done: int = 0;
    assert(all.take(0) =~= Seq::<Action<M, W>>::empty());
    while rest.len() > 0
        invariant
            0 <= done <= all.len() <= usize::MAX,
            rest@.len() + done == all.len(),
            forall|i: int| 0 <= i < rest@.len() ==> rest@[i] == all[all.len() - 1 - i],
            jobs@ == spawns(all.take(done)),
            lost + jobs@.len() <= done,
        decreases rest.len(),
    {
        let action = rest.pop().unwrap();
        proof {
            assert(all.take(done + 1).drop_last() =~= all.take(done));
            assert(all.take(done + 1).last() == action);
            done = done + 1;
        }
        assert(lost + jobs@.len() < done);
        match action {
            Action::Spawn(id, job) => {
                jobs.push((id, job));
            },
            Action::Message(message) => {
                if messages.submit(message).is_err() {
                    lost += 1;
                }
            },
            Action::Directive(directive) => {
                if directives.submit(directive).is_err() {
                    lost += 1;
                }
            },
        }
    }
    assert(all.take(all.len() as int) =~= all);
    Forwarded { jobs, lost }
}

/// Puts each task of `commands` in `tasks`, each element in `elements` and
/// each label in `labels`, in order. Returns how many no mailbox took.
pub fn deliver<M: 'static + Send + Sync, W: 'static + Send + Sync>(
    commands: Vec<Command<M, W>>,
    tasks: &Submitter<Task<M, W>>,
    elements: &Submitter<Element<M>>,
    labels: &Submitter<String>,
) -> (lost: usize)
    ensures
        lost <= commands@.len(),
{
    let ghost count = commands@.len();
    let mut rest = reversed(commands);
    let mut outcomes: Vec<Result<(), MailboxError>> = Vec::new();
    while rest.len() > 0
        invariant
            rest@.len() + outcomes@.len() == count,
        decreases rest.len(),
    {
        let outcome = match rest.pop().unwrap() {
            Command::Dispatch(task) => tasks.submit(task),
            Command::Render(element) => elements.submit(element),
            Command::Close(label) => labels.submit(label),
        };
        outcomes.push(outcome);
    }
    proof {
        lemma_failed_bound(outcomes@);
    }
    failures(&outcomes)
}

} // verus!
