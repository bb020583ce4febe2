use hej::application::Command;
use hej::driver::{deliver, forward};
use hej::element::{Element, IntoElement};
use hej::mailbox::{channel, failures, received, sent, MailboxError, Server, Submitter};
use tokio::sync::mpsc::error::{SendError, TryRecvError};
use hej::pool::Action;
use hej::task::{ApplicationDirective, Job, Task};
use hej::widget::empty;

#[test]
fn a_mailbox_gives_out_what_was_put_in_in_order() {
    let (submitter, mut server) = channel::<u8>();
    assert_eq!(server.len(), 0);
    assert_eq!(submitter.submit(1), Ok(()));
    assert_eq!(submitter.clone().submit(2), Ok(()));
    assert_eq!(server.len(), 2);
    assert_eq!(server.try_recv(), Ok(1));
    assert_eq!(server.try_recv(), Ok(2));
    assert_eq!(server.try_recv(), Err(MailboxError::Empty));
}

#[test]
fn submit_fails_once_the_consumer_is_gone() {
    let (submitter, server) = channel::<u8>();
    drop(server);
    assert_eq!(submitter.submit(1), Err(MailboxError::Closed));
}

#[test]
fn try_recv_says_closed_once_the_producers_are_gone() {
    let (submitter, mut server) = channel::<u8>();
    assert_eq!(submitter.submit(1), Ok(()));
    drop(submitter);
    assert_eq!(server.try_recv(), Ok(1));
    assert_eq!(server.try_recv(), Err(MailboxError::Closed));
}

#[test]
fn submitter_and_server_wrap_the_two_ends_of_a_channel() {
    let (tx, rx) = tokio::sync::mpsc::unbounded_channel::<u8>();
    let submitter = Submitter::new(tx);
    let mut server = Server::new(rx);
    assert_eq!(submitter.submit(9), Ok(()));
    assert_eq!(server.try_recv(), Ok(9));
}

#[test]
fn forward_sends_messages_and_directives_and_returns_the_jobs() {
    let (messages, mut message_server) = channel::<u8>();
    let (directives, mut directive_server) = channel::<ApplicationDirective<u8>>();
    let actions: Vec<Action<u8, ()>> = vec![
        Action::Message(1),
        Action::Spawn(4, Job::Ready(2)),
        Action::Directive(ApplicationDirective::Stop),
        Action::Spawn(0, Job::Work(())),
        Action::Message(3),
    ];
    let forwarded = forward(actions, &messages, &directives);
    assert_eq!(forwarded.lost, 0);
    assert_eq!(forwarded.jobs.len(), 2);
    assert!(matches!(forwarded.jobs[0], (4, Job::Ready(2))));
    assert!(matches!(forwarded.jobs[1], (0, Job::Work(()))));
    assert_eq!(message_server.try_recv(), Ok(1));
    assert_eq!(message_server.try_recv(), Ok(3));
    assert!(matches!(directive_server.try_recv(), Ok(ApplicationDirective::Stop)));
    assert!(directive_server.try_recv().is_err());
}

#[test]
fn forward_counts_what_no_mailbox_took() {
    let (messages, message_server) = channel::<u8>();
    let (directives, _directive_server) = channel::<ApplicationDirective<u8>>();
    drop(message_server);
    let actions: Vec<Action<u8, ()>> = vec![
        Action::Message(1),
        Action::Directive(ApplicationDirective::ResetState),
        Action::Message(2),
    ];
    let forwarded = forward(actions, &messages, &directives);
    assert_eq!(forwarded.lost, 2);
    assert_eq!(forwarded.jobs.len(), 0);
}

#[test]
fn deliver_puts_each_command_in_its_mailbox() {
    let (tasks, mut task_server) = channel::<Task<u8, u8>>();
    let (elements, mut element_server) = channel::<Element<u8>>();
    let (labels, mut label_server) = channel::<String>();
    let commands: Vec<Command<u8, u8>> = vec![
        Command::Dispatch(Task::msg(5)),
        Command::Render(empty().label("view").element()),
        Command::Close("a".to_string()),
        Command::Close("b".to_string()),
    ];
    assert_eq!(deliver(commands, &tasks, &elements, &labels), 0);
    assert!(matches!(task_server.try_recv(), Ok(Task::Simple(Job::Ready(5)))));
    assert!(matches!(element_server.try_recv(), Ok(e) if e.label() == Some("view".to_string())));
    assert_eq!(label_server.try_recv(), Ok("a".to_string()));
    assert_eq!(label_server.try_recv(), Ok("b".to_string()));
    assert_eq!(label_server.try_recv(), Err(MailboxError::Empty));
}

#[test]
fn deliver_counts_what_no_mailbox_took() {
    let (tasks, _task_server) = channel::<Task<u8, u8>>();
    let (elements, _element_server) = channel::<Element<u8>>();
    let (labels, label_server) = channel::<String>();
    drop(label_server);
    let commands: Vec<Command<u8, u8>> = vec![
        Command::Dispatch(Task::stop()),
        Command::Close("a".to_string()),
        Command::Close("b".to_string()),
    ];
    assert_eq!(deliver(commands, &tasks, &elements, &labels), 2);
}

#[test]
fn drain_takes_what_waits_and_leaves_the_mailbox_open() {
    let (submitter, mut server) = channel::<u8>();
    assert_eq!(server.drain(), Vec::<u8>::new());
    assert_eq!(submitter.submit_all(vec![1, 2, 3]), 0);
    assert_eq!(server.drain(), vec![1, 2, 3]);
    assert_eq!(server.try_recv(), Err(MailboxError::Empty));
    assert_eq!(submitter.submit(4), Ok(()));
    assert_eq!(server.drain(), vec![4]);
}

#[test]
fn submit_all_counts_what_the_mailbox_did_not_take() {
    let (submitter, server) = channel::<u8>();
    drop(server);
    assert_eq!(submitter.submit_all(vec![1, 2, 3]), 3);
    assert_eq!(submitter.submit_all(Vec::new()), 0);
}

#[test]
fn sent_turns_a_refusal_into_closed() {
    assert_eq!(sent::<u8>(Ok(())), Ok(()));
    assert_eq!(sent(Err(SendError(7u8))), Err(MailboxError::Closed));
}

#[test]
fn received_keeps_the_value_and_tells_empty_from_closed() {
    assert_eq!(received(Ok(7u8)), Ok(7));
    assert_eq!(received::<u8>(Err(TryRecvError::Empty)), Err(MailboxError::Empty));
    assert_eq!(received::<u8>(Err(TryRecvError::Disconnected)), Err(MailboxError::Closed));
}

#[test]
fn failures_counts_the_sends_that_failed() {
    assert_eq!(failures(&Vec::new()), 0);
    assert_eq!(
        failures(&vec![Ok(()), Err(MailboxError::Closed), Ok(()), Err(MailboxError::Closed)]),
        2
    );
}

#[test]
fn submit_each_says_what_became_of_each_item() {
    let (submitter, mut server) = channel::<u8>();
    assert_eq!(submitter.submit_each(vec![1, 2]), vec![Ok(()), Ok(())]);
    assert_eq!(server.drain(), vec![1, 2]);
    drop(server);
    assert_eq!(
        submitter.submit_each(vec![3, 4]),
        vec![Err(MailboxError::Closed), Err(MailboxError::Closed)]
    );
}

#[test]
fn take_up_to_stops_at_the_limit_or_when_nothing_waits() {
    let (submitter, mut server) = channel::<u8>();
    assert_eq!(submitter.submit_all(vec![1, 2, 3]), 0);
    assert_eq!(server.take_up_to(0), Vec::<u8>::new());
    assert_eq!(server.take_up_to(2), vec![1, 2]);
    assert_eq!(server.take_up_to(5), vec![3]);
}
