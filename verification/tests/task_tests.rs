use std::time::Duration;

use hej::element::Element;
use hej::mapper::Mapper;
use hej::task::{ApplicationDirective, Job, SpecialTask, Task};
use hej::widget::empty;
use hej::element::IntoElement;

type Tk = Task<u32, &'static str>;

fn labelled(label: &str) -> Element<u32> {
    empty().label(label).element()
}

#[test]
fn msg_is_a_job_that_is_ready() {
    assert!(matches!(Tk::msg(7), Task::Simple(Job::Ready(7))));
}

#[test]
fn wait_is_a_job_that_is_delayed() {
    match Tk::wait(Duration::from_millis(1000), 7) {
        Task::Simple(Job::Delayed(d, 7)) => assert_eq!(d, Duration::from_millis(1000)),
        _ => panic!("not a delayed job"),
    }
}

#[test]
fn new_is_a_job_of_work() {
    assert!(matches!(Tk::new("fetch"), Task::Simple(Job::Work("fetch"))));
}

#[test]
fn instructions_are_special_tasks() {
    assert!(matches!(Tk::stop(), Task::Special(SpecialTask::Stop)));
    assert!(matches!(Tk::none(), Task::Special(SpecialTask::Nothing)));
    assert!(matches!(Tk::reset_state(), Task::Special(SpecialTask::ResetState)));
    match Tk::close("bar.left") {
        Task::Special(SpecialTask::Close(label)) => assert_eq!(label, "bar.left"),
        _ => panic!("not a close"),
    }
    match Tk::submit(labelled("bar.left")) {
        Task::Special(SpecialTask::Submit(element)) => {
            assert_eq!(element.label(), Some("bar.left".to_string()))
        }
        _ => panic!("not a submit"),
    }
}

#[test]
fn batch_holds_both_tasks_in_order() {
    match Tk::msg(1).batch(Tk::msg(2)) {
        Task::Batch(tasks) => {
            assert_eq!(tasks.len(), 2);
            assert!(matches!(tasks[0], Task::Simple(Job::Ready(1))));
            assert!(matches!(tasks[1], Task::Simple(Job::Ready(2))));
        }
        _ => panic!("not a batch"),
    }
}

#[test]
fn and_then_holds_first_and_next() {
    match Tk::msg(1).then(Tk::stop()) {
        Task::Then(first, next) => {
            assert!(matches!(*first, Task::Simple(Job::Ready(1))));
            assert!(matches!(*next, Task::Special(SpecialTask::Stop)));
        }
        _ => panic!("not a sequence"),
    }
}

#[test]
fn special_task_becomes_the_directive_of_the_same_name() {
    assert!(SpecialTask::<u32>::Nothing.directive().is_none());
    assert!(matches!(SpecialTask::<u32>::Stop.directive(), Some(ApplicationDirective::Stop)));
    assert!(matches!(
        SpecialTask::<u32>::ResetState.directive(),
        Some(ApplicationDirective::ResetState)
    ));
    match SpecialTask::<u32>::Close("a".to_string()).directive() {
        Some(ApplicationDirective::Close(label)) => assert_eq!(label, "a"),
        _ => panic!("not a close"),
    }
    match SpecialTask::Submit(labelled("b")).directive() {
        Some(ApplicationDirective::Submit(element)) => {
            assert_eq!(element.label(), Some("b".to_string()))
        }
        _ => panic!("not a submit"),
    }
}

#[test]
fn map_rewrites_messages_and_keeps_the_tree() {
    let task: Tk = Tk::msg(1)
        .then(Tk::wait(Duration::from_millis(5), 2))
        .batch(Tk::new("w").then(Tk::close("x")))
        .then(Tk::stop());
    let mapped: Task<String, String> = task.map(
        Mapper::new(|n: u32| format!("m{}", n * 10)),
        &|work: &'static str, map: Mapper<u32, String>| format!("{}->{}", work, map.map(0)),
    );
    match mapped {
        Task::Then(first, last) => {
            assert!(matches!(*last, Task::Special(SpecialTask::Stop)));
            match *first {
                Task::Batch(tasks) => {
                    assert_eq!(tasks.len(), 2);
                    match &tasks[0] {
                        Task::Then(a, b) => {
                            assert!(matches!(&**a, Task::Simple(Job::Ready(m)) if m == "m10"));
                            match &**b {
                                Task::Simple(Job::Delayed(d, m)) => {
                                    assert_eq!(*d, Duration::from_millis(5));
                                    assert_eq!(m, "m20");
                                }
                                _ => panic!("not a delayed job"),
                            }
                        }
                        _ => panic!("not a sequence"),
                    }
                    match &tasks[1] {
                        Task::Then(a, b) => {
                            assert!(matches!(&**a, Task::Simple(Job::Work(w)) if w == "w->m0"));
                            assert!(
                                matches!(&**b, Task::Special(SpecialTask::Close(l)) if l == "x")
                            );
                        }
                        _ => panic!("not a sequence"),
                    }
                }
                _ => panic!("not a batch"),
            }
        }
        _ => panic!("not a sequence"),
    }
}

#[test]
fn map_passes_instructions_through_and_maps_the_element_to_show() {
    let keep = |w: &'static str, _: Mapper<u32, u64>| w;
    let by = || Mapper::new(|n: u32| u64::from(n) + 1);
    assert!(matches!(Tk::stop().map(by(), &keep), Task::Special(SpecialTask::Stop)));
    assert!(matches!(Tk::none().map(by(), &keep), Task::Special(SpecialTask::Nothing)));
    assert!(matches!(
        Tk::reset_state().map(by(), &keep),
        Task::Special(SpecialTask::ResetState)
    ));
    match Tk::submit(labelled("bar")).map(by(), &keep) {
        Task::Special(SpecialTask::Submit(element)) => {
            assert_eq!(element.label(), None);
            assert_eq!(element.layout(), labelled("bar").layout());
        }
        _ => panic!("not a submit"),
    }
}

#[test]
fn reversed_turns_a_list_around() {
    assert_eq!(hej::list::reversed(vec![1, 2, 3]), vec![3, 2, 1]);
    assert_eq!(hej::list::reversed(Vec::<u8>::new()), Vec::<u8>::new());
}
