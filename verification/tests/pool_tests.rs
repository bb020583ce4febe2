use std::time::Duration;

use hej::element::IntoElement;
use hej::pool::{resolve, Action, TaskPool};
use hej::task::{ApplicationDirective, Job, Task};
use hej::widget::empty;

#[derive(Debug, Clone, Copy, PartialEq, Eq)]
enum Msg {
    Nothing,
    A,
    B,
    Failed,
}

type Pool = TaskPool<Msg, &'static str>;
type Tree = Task<Msg, &'static str>;

fn count_messages(actions: &[Action<Msg, &'static str>]) -> usize {
    actions.iter().filter(|a| matches!(a, Action::Message(_))).count()
}

#[test]
fn a_new_pool_is_idle() {
    let pool = Pool::new();
    assert!(pool.is_idle());
    assert!(!pool.runs(0));
}

#[test]
fn a_job_is_started_under_the_smallest_free_number() {
    let mut pool = Pool::new();
    let actions = pool.submit(Tree::msg(Msg::A));
    assert_eq!(actions.len(), 1);
    assert!(matches!(actions[0], Action::Spawn(0, Job::Ready(Msg::A))));
    assert!(pool.runs(0));
    assert!(!pool.is_idle());
    let actions = pool.submit(Tree::new("work"));
    assert!(matches!(actions[0], Action::Spawn(1, Job::Work("work"))));
    let actions = pool.finish(0, Msg::A);
    assert_eq!(actions.len(), 1);
    assert!(matches!(actions[0], Action::Message(Msg::A)));
    assert!(!pool.runs(0));
    let actions = pool.submit(Tree::msg(Msg::B));
    assert!(matches!(actions[0], Action::Spawn(0, Job::Ready(Msg::B))));
}

#[test]
fn instructions_are_passed_on_at_once_and_nothing_is_passed_on_for_none() {
    let mut pool = Pool::new();
    assert_eq!(pool.submit(Tree::none()).len(), 0);
    let actions = pool.submit(Tree::stop());
    assert_eq!(actions.len(), 1);
    assert!(matches!(actions[0], Action::Directive(ApplicationDirective::Stop)));
    let actions = pool.submit(Tree::reset_state());
    assert!(matches!(actions[0], Action::Directive(ApplicationDirective::ResetState)));
    let actions = pool.submit(Tree::close("bar"));
    assert!(matches!(&actions[0], Action::Directive(ApplicationDirective::Close(l)) if l == "bar"));
    assert!(pool.is_idle());
}

#[test]
fn every_job_gives_exactly_one_message() {
    let mut pool = Pool::new();
    let task = Tree::msg(Msg::A)
        .batch(Tree::new("x").then(Tree::msg(Msg::B)))
        .then(Tree::wait(Duration::from_millis(1), Msg::Nothing).batch(Tree::stop()));
    let mut pending: Vec<usize> = Vec::new();
    let mut messages = 0;
    let mut queue = pool.submit(task);
    loop {
        messages += count_messages(&queue);
        for action in queue.drain(..) {
            if let Action::Spawn(id, _) = action {
                pending.push(id);
            }
        }
        match pending.pop() {
            Some(id) => queue = pool.finish(id, Msg::Nothing),
            None => break,
        }
    }
    assert_eq!(messages, 4);
    assert!(pool.is_idle());
}

#[test]
fn news_of_a_job_that_does_not_run_is_ignored() {
    let mut pool = Pool::new();
    assert_eq!(pool.finish(0, Msg::A).len(), 0);
    pool.submit(Tree::msg(Msg::A));
    assert_eq!(pool.finish(5, Msg::A).len(), 0);
    assert_eq!(pool.finish(0, Msg::A).len(), 1);
    assert_eq!(pool.finish(0, Msg::A).len(), 0);
    assert!(pool.is_idle());
}

#[test]
fn the_second_of_a_sequence_starts_after_the_message_of_the_first() {
    let mut pool = Pool::new();
    let actions = pool.submit(Tree::msg(Msg::A).then(Tree::msg(Msg::B)));
    assert_eq!(actions.len(), 1);
    assert!(matches!(actions[0], Action::Spawn(0, Job::Ready(Msg::A))));
    let actions = pool.finish(0, Msg::A);
    assert_eq!(actions.len(), 2);
    assert!(matches!(actions[0], Action::Message(Msg::A)));
    assert!(matches!(actions[1], Action::Spawn(_, Job::Ready(Msg::B))));
    let id = match actions[1] {
        Action::Spawn(id, _) => id,
        _ => unreachable!(),
    };
    assert_ne!(id, 0);
    let actions = pool.finish(id, Msg::B);
    assert_eq!(actions.len(), 1);
    assert!(matches!(actions[0], Action::Message(Msg::B)));
    assert!(pool.is_idle());
}

#[test]
fn a_sequence_waits_for_every_job_of_a_batch_at_its_head() {
    let mut pool = Pool::new();
    let actions = pool.submit(Tree::msg(Msg::A).batch(Tree::msg(Msg::B)).then(Tree::stop()));
    assert_eq!(actions.len(), 2);
    let actions = pool.finish(1, Msg::B);
    assert_eq!(actions.len(), 1);
    let actions = pool.finish(0, Msg::A);
    assert_eq!(actions.len(), 2);
    assert!(matches!(actions[0], Action::Message(Msg::A)));
    assert!(matches!(actions[1], Action::Directive(ApplicationDirective::Stop)));
    assert!(pool.is_idle());
}

#[test]
fn an_instruction_at_the_head_of_a_sequence_does_not_hold_it_up() {
    let mut pool = Pool::new();
    let actions = pool.submit(Tree::close("a").then(Tree::none()).then(Tree::stop()));
    assert_eq!(actions.len(), 2);
    assert!(matches!(&actions[0], Action::Directive(ApplicationDirective::Close(l)) if l == "a"));
    assert!(matches!(actions[1], Action::Directive(ApplicationDirective::Stop)));
    assert!(pool.is_idle());
}

#[test]
fn both_jobs_of_a_batch_give_their_message_in_either_order() {
    for first in [0usize, 1] {
        let mut pool = Pool::new();
        let actions = pool.submit(
            Tree::wait(Duration::from_millis(30), Msg::A)
                .batch(Tree::wait(Duration::from_millis(10), Msg::B)),
        );
        assert_eq!(actions.len(), 2);
        assert!(matches!(actions[0], Action::Spawn(0, Job::Delayed(_, Msg::A))));
        assert!(matches!(actions[1], Action::Spawn(1, Job::Delayed(_, Msg::B))));
        let of = |id: usize| if id == 0 { Msg::A } else { Msg::B };
        let one = pool.finish(first, of(first));
        assert_eq!(one.len(), 1);
        assert!(matches!(one[0], Action::Message(m) if m == of(first)));
        assert!(!pool.is_idle());
        let other = pool.finish(1 - first, of(1 - first));
        assert_eq!(other.len(), 1);
        assert!(matches!(other[0], Action::Message(m) if m == of(1 - first)));
        assert!(pool.is_idle());
    }
}

#[test]
fn an_empty_batch_is_done_at_once() {
    let mut pool = Pool::new();
    let actions = pool.submit(Task::Batch(Vec::new()).then(Tree::stop()));
    assert_eq!(actions.len(), 1);
    assert!(matches!(actions[0], Action::Directive(ApplicationDirective::Stop)));
}

#[test]
fn open_shows_the_bar_waits_and_then_closes_it() {
    let mut pool = Pool::new();
    let bar = empty().label("bar.left").element();
    let task = Tree::submit(bar)
        .then(Tree::wait(Duration::from_millis(1000), Msg::Nothing))
        .then(Tree::close("bar.left"));
    let actions = pool.submit(task);
    assert_eq!(actions.len(), 2);
    match &actions[0] {
        Action::Directive(ApplicationDirective::Submit(element)) => {
            assert_eq!(element.label(), Some("bar.left".to_string()))
        }
        _ => panic!("the bar is not shown first"),
    }
    let id = match &actions[1] {
        Action::Spawn(id, Job::Delayed(delay, Msg::Nothing)) => {
            assert_eq!(*delay, Duration::from_millis(1000));
            *id
        }
        _ => panic!("the wait is not started"),
    };
    assert!(!actions
        .iter()
        .any(|a| matches!(a, Action::Directive(ApplicationDirective::Close(_)))));
    let actions = pool.finish(id, Msg::Nothing);
    assert_eq!(actions.len(), 2);
    assert!(matches!(actions[0], Action::Message(Msg::Nothing)));
    assert!(
        matches!(&actions[1], Action::Directive(ApplicationDirective::Close(l)) if l == "bar.left")
    );
    assert!(pool.is_idle());
}

#[test]
fn a_number_is_not_given_out_again_in_the_call_that_frees_it() {
    let mut pool = Pool::new();
    pool.submit(Tree::msg(Msg::A).then(Tree::msg(Msg::B)));
    let actions = pool.finish(0, Msg::A);
    assert!(matches!(actions[1], Action::Spawn(1, _)));
    assert!(!pool.runs(0));
    assert!(pool.runs(1));
}

#[test]
fn resolve_keeps_a_message_and_maps_a_failure() {
    let on_error = |_: String| Msg::Failed;
    assert_eq!(resolve(Ok(Msg::A), &on_error), Msg::A);
    assert_eq!(resolve(Err("boom".to_string()), &on_error), Msg::Failed);
}

#[test]
fn a_failed_job_does_not_hold_up_its_siblings() {
    let mut pool = Pool::new();
    let on_error = |_: String| Msg::Failed;
    pool.submit(Tree::new("fails").batch(Tree::new("works")));
    let actions = pool.finish(0, resolve(Err("boom".to_string()), &on_error));
    assert!(matches!(actions[0], Action::Message(Msg::Failed)));
    let actions = pool.finish(1, resolve(Ok(Msg::B), &on_error));
    assert!(matches!(actions[0], Action::Message(Msg::B)));
    assert!(pool.is_idle());
}
