//! The application loop: what a message or a directive does to the state, to
//! the rendered view and to the labels that are alive.
//!
//! A [`Runtime`] takes one message or one directive at a time and answers
//! with the commands for its driver to carry out, in order. It is running
//! until it is told to stop, and then stays stopped.

use vstd::prelude::*;
use std::marker::PhantomData;
use crate::element::Element;
use crate::labels::{names, removed, removed_labels, texts};
use crate::task::{ApplicationDirective, Task};

verus! {

/// What the application loop asks of its driver.
#[verifier::reject_recursive_types(M)]
pub enum Command<M, W> {
    /// Hand the task to the pool.
    Dispatch(Task<M, W>),
    /// Give this element to the backend, to show it.
    Render(Element<M>),
    /// Ask the backend to remove the element that has this label.
    Close(String),
}

/// Whether `commands` ask to close `labels`, one by one and nothing else.
pub open spec fn closing<M, W>(commands: Seq<Command<M, W>>, labels: Seq<Seq<char>>) -> bool {
    &&& commands.len() == labels.len()
    &&& forall|i: int|
        0 <= i < commands.len() ==> (#[trigger] commands[i] matches Command::Close(l) && l@
            == labels[i])
}

/// How many of `commands` ask to close `label`.
pub open spec fn closes_of<M, W>(commands: Seq<Command<M, W>>, label: Seq<char>) -> nat
    decreases commands.len(),
{
    if commands.len() == 0 {
        0
    } else {
        closes_of(commands.drop_last(), label) + if commands.last() matches Command::Close(l)
            && l@ == label {
            1nat
        } else {
            0nat
        }
    }
}

/// The closes of two lists of commands, one after the other, are those of
/// both.
pub proof fn lemma_closes_add<M, W>(
    a: Seq<Command<M, W>>,
    b: Seq<Command<M, W>>,
    label: Seq<char>,
)
    ensures
        closes_of(a + b, label) == closes_of(a, label) + closes_of(b, label),
    decreases b.len(),
{
    if b.len() == 0 {
        assert(a + b =~= a);
    } else {
        lemma_closes_add(a, b.drop_last(), label);
        assert((a + b).drop_last() =~= a + b.drop_last());
        assert((a + b).last() == b.last());
    }
}

/// Commands that close a list of labels in which none occurs twice close
/// each label of the list once, and no other.
pub proof fn lemma_closing_once<M, W>(
    commands: Seq<Command<M, W>>,
    labels: Seq<Seq<char>>,
    label: Seq<char>,
)
    requires
        closing(commands, labels),
        labels.no_duplicates(),
    ensures
        closes_of(commands, label) == if labels.contains(label) {
            1nat
        } else {
            0nat
        },
    decreases commands.len(),
{
    if commands.len() > 0 {
        let front = labels.drop_last();
        let before = commands.drop_last();
        assert forall|i: int| 0 <= i < front.len() implies (#[trigger] before[i] matches Command::Close(
            l,
        ) && l@ == front[i]) by {
            assert(before[i] == commands[i]);
        }
        assert forall|i: int, j: int| 0 <= i < front.len() && 0 <= j < front.len() && i
            != j implies front[i] != front[j] by {
            assert(front[i] == labels[i] && front[j] == labels[j]);
        }
        lemma_closing_once(commands.drop_last(), front, label);
        let n = labels.len() - 1;
        assert(commands.last() == commands[n]);
        if front.contains(label) {
            let i = choose|i: int| 0 <= i < front.len() && front[i] == label;
            assert(labels[i] == label);
            assert(labels[n] != label);
        }
        if labels.contains(label) && !front.contains(label) {
            let i = choose|i: int| 0 <= i < labels.len() && labels[i] == label;
            if i < n {
                assert(front[i] == label);
            }
        }
        if labels[n] == label {
            assert(labels.contains(label));
        }
    }
}

/// Whether the three functions of an application may be called on whatever
/// they are given.
pub open spec fn callable<S, M, W, F, U, V>(factory: F, update: U, view: V) -> bool where
    F: Fn() -> S,
    U: Fn(&mut S, M) -> Task<M, W>,
    V: Fn(&S) -> Element<M>,
 {
    &&& factory.requires(())
    &&& forall|s: &mut S, m: M| update.requires((s, m))
    &&& forall|s: &S| view.requires((s,))
}

/// The three functions that make an application: how to make its state, how
/// a message changes the state and what task it asks for, and how the state
/// is shown.
#[verifier::reject_recursive_types(S)]
#[verifier::reject_recursive_types(M)]
#[verifier::reject_recursive_types(W)]
#[verifier::reject_recursive_types(F)]
#[verifier::reject_recursive_types(U)]
#[verifier::reject_recursive_types(V)]
pub struct Program<S, M, W, F, U, V> where
    F: Fn() -> S,
    U: Fn(&mut S, M) -> Task<M, W>,
    V: Fn(&S) -> Element<M>,
 {
    state: F,
    update: U,
    view: V,
    marker: PhantomData<(S, M, W)>,
}

impl<S, M, W, F, U, V> Program<S, M, W, F, U, V> where
    F: Fn() -> S,
    U: Fn(&mut S, M) -> Task<M, W>,
    V: Fn(&S) -> Element<M>,
 {
    #[verifier::type_invariant]
    spec fn well_formed(self) -> bool {
        callable::<S, M, W, F, U, V>(self.state, self.update, self.view)
    }

    /// The function that makes a fresh state.
    pub closed spec fn factory(self) -> F {
        self.state
    }

    /// The function that takes a message in.
    pub closed spec fn updater(self) -> U {
        self.update
    }

    /// The function that shows a state.
    pub closed spec fn viewer(self) -> V {
        self.view
    }

    fn new(state: F, update: U, view: V) -> (r: Self)
        requires
            callable::<S, M, W, F, U, V>(state, update, view),
        ensures
            r.factory() == state,
            r.updater() == update,
            r.viewer() == view,
    {
        Program { state, update, view, marker: PhantomData }
    }

    /// A fresh state.
    fn make(&self) -> (state: S)
        ensures
            self.factory().ensures((), state),
    {
        proof {
            use_type_invariant(self);
        }
        (self.state)()
    }

    /// Updates `state` with `message`.
    fn update(&self, state: &mut S, message: M) -> (task: Task<M, W>)
        ensures
            exists|s: &mut S|
                *s == *old(state) && *final(s) == *final(state) && call_ensures(
                    self.updater(),
                    (s, message),
                    task,
                ),
    {
        proof {
            use_type_invariant(self);
        }
        (self.update)(state, message)
    }

    /// Shows `state`.
    fn show(&self, state: &S) -> (element: Element<M>)
        ensures
            self.viewer().ensures((state,), element),
    {
        proof {
            use_type_invariant(self);
        }
        (self.view)(state)
    }
}

/// An application that has not started: its three functions and the task to
/// begin with, if any.
#[verifier::reject_recursive_types(S)]
#[verifier::reject_recursive_types(M)]
#[verifier::reject_recursive_types(W)]
#[verifier::reject_recursive_types(F)]
#[verifier::reject_recursive_types(U)]
#[verifier::reject_recursive_types(V)]
pub struct Application<S, M, W, F, U, V> where
    F: Fn() -> S,
    U: Fn(&mut S, M) -> Task<M, W>,
    V: Fn(&S) -> Element<M>,
 {
    program: Program<S, M, W, F, U, V>,
    initial_task: Option<Task<M, W>>,
}

/// An application that has started.
#[verifier::reject_recursive_types(S)]
#[verifier::reject_recursive_types(M)]
#[verifier::reject_recursive_types(W)]
#[verifier::reject_recursive_types(F)]
#[verifier::reject_recursive_types(U)]
#[verifier::reject_recursive_types(V)]
pub struct Runtime<S, M, W, F, U, V> where
    F: Fn() -> S,
    U: Fn(&mut S, M) -> Task<M, W>,
    V: Fn(&S) -> Element<M>,
 {
    program: Program<S, M, W, F, U, V>,
    state: S,
    labels: Vec<Option<String>>,
    running: bool,
}

impl<S, M, W, F, U, V> Application<S, M, W, F, U, V> where
    F: Fn() -> S,
    U: Fn(&mut S, M) -> Task<M, W>,
    V: Fn(&S) -> Element<M>,
 {
    /// The function that makes a fresh state.
    pub closed spec fn factory(self) -> F {
        self.program.factory()
    }

    /// The function that takes a message in.
    pub closed spec fn updater(self) -> U {
        self.program.updater()
    }

    /// The function that shows a state.
    pub closed spec fn viewer(self) -> V {
        self.program.viewer()
    }

    /// The task to begin with.
    pub closed spec fn first_task(self) -> Option<Task<M, W>> {
        self.initial_task
    }

    /// An application made of `state`, `update` and `view`, with no task to
    /// begin with.
    pub fn new(state: F, update: U, view: V) -> (r: Self)
        requires
            callable::<S, M, W, F, U, V>(state, update, view),
        ensures
            r.factory() == state,
            r.updater() == update,
            r.viewer() == view,
            r.first_task() is None,
    {
        Application { program: Program::new(state, update, view), initial_task: None }
    }

    /// The same application with `task` to begin with.
    pub fn task(self, task: Task<M, W>) -> (r: Self)
        ensures
            r.factory() == self.factory(),
            r.updater() == self.updater(),
            r.viewer() == self.viewer(),
            r.first_task() == Some(task),
    {
        Application { program: self.program, initial_task: Some(task) }
    }

    /// Takes the task to begin with out of the application, which then has
    /// none.
    pub fn take_task(&mut self) -> (r: Option<Task<M, W>>)
        ensures
            r == old(self).first_task(),
            final(self).first_task() is None,
            final(self).factory() == old(self).factory(),
            final(self).updater() == old(self).updater(),
            final(self).viewer() == old(self).viewer(),
    {
        self.initial_task.take()
    }

    /// Makes the state, and shows nothing yet.
    ///
    /// The one command, if any, is to give the task to begin with to the
    /// pool. No view has been rendered, so no label is alive.
    pub fn boot(self) -> (r: (Runtime<S, M, W, F, U, V>, Vec<Command<M, W>>))
        ensures
            r.0.is_running(),
            r.0.factory() == self.factory(),
            r.0.updater() == self.updater(),
            r.0.viewer() == self.viewer(),
            self.factory().ensures((), r.0.state()),
            r.0.labels() == Seq::<Option<Seq<char>>>::empty(),
            r.1@ == match self.first_task() {
                Some(task) => seq![Command::Dispatch(task)],
                None => Seq::<Command<M, W>>::empty(),
            },
    {
        let mut commands: Vec<Command<M, W>> = Vec::new();
        match self.initial_task {
            Some(task) => {
                commands.push(Command::Dispatch(task));
                assert(commands@ =~= seq![Command::Dispatch(task)]);
            },
            None => {},
        }
        let state = self.program.make();
        let labels: Vec<Option<String>> = Vec::new();
        assert(texts(labels@) =~= Seq::<Option<Seq<char>>>::empty());
        let runtime = Runtime { program: self.program, state, labels, running: true };
        (runtime, commands)
    }

    /// Starts the application: makes the state and shows it once.
    ///
    /// The commands are to give the task to begin with to the pool, if there
    /// is one, and then to render the first view.
    pub fn start(self) -> (r: (Runtime<S, M, W, F, U, V>, Vec<Command<M, W>>))
        ensures
            r.0.is_running(),
            r.0.factory() == self.factory(),
            r.0.updater() == self.updater(),
            r.0.viewer() == self.viewer(),
            self.factory().ensures((), r.0.state()),
            match self.first_task() {
                Some(task) => r.1@.len() == 2 && r.1@[0] == Command::Dispatch(task),
                None => r.1@.len() == 1,
            },
            r.1@.last() matches Command::Render(element) && self.viewer().ensures(
                (&r.0.state(),),
                element,
            ) && r.0.labels() == element.spec_labels(),
    {
        let (mut runtime, mut commands) = self.boot();
        let mut rendered = runtime.render();
        proof {
            assert(removed(Seq::<Option<Seq<char>>>::empty(), runtime.labels()) =~= Seq::<
                Seq<char>,
            >::empty());
            assert(rendered@.skip(1).len() == 0);
            assert(rendered@.len() == 1);
        }
        commands.append(&mut rendered);
        (runtime, commands)
    }
}

impl<S, M, W, F, U, V> Runtime<S, M, W, F, U, V> where
    F: Fn() -> S,
    U: Fn(&mut S, M) -> Task<M, W>,
    V: Fn(&S) -> Element<M>,
 {
    /// The function that makes a fresh state.
    pub closed spec fn factory(self) -> F {
        self.program.factory()
    }

    /// The function that takes a message in.
    pub closed spec fn updater(self) -> U {
        self.program.updater()
    }

    /// The function that shows a state.
    pub closed spec fn viewer(self) -> V {
        self.program.viewer()
    }

    /// The state as it is now.
    pub closed spec fn state(self) -> S {
        self.state
    }

    /// The labels of the view that was rendered last.
    pub closed spec fn labels(self) -> Seq<Option<Seq<char>>> {
        texts(self.labels@)
    }

    /// Whether the application has not been stopped.
    pub closed spec fn is_running(self) -> bool {
        self.running
    }

    /// Whether the application has not been stopped.
    pub fn running(&self) -> (r: bool)
        ensures
            r == self.is_running(),
    {
        self.running
    }

    /// Shows the state as it is now.
    ///
    /// The commands are first to render the element that the view gives, and
    /// then to close each label that the view rendered before had and this
    /// one lacks: each such label once, and no other. A view that comes out
    /// with the labels it had closes nothing. The state stays as it is.
    ///
    /// A stopped application renders nothing: nothing changes and nothing is
    /// asked.
    pub fn render(&mut self) -> (commands: Vec<Command<M, W>>)
        ensures
            !old(self).is_running() ==> *final(self) == *old(self) && commands@.len() == 0,
            final(self).is_running() == old(self).is_running(),
            final(self).factory() == old(self).factory(),
            final(self).updater() == old(self).updater(),
            final(self).viewer() == old(self).viewer(),
            final(self).state() == old(self).state(),
            old(self).is_running() ==> {
                &&& commands@.len() >= 1
                &&& commands@[0] matches Command::Render(element) && old(self).viewer().ensures(
                    (&final(self).state(),),
                    element,
                ) && final(self).labels() == element.spec_labels()
                &&& closing(
                    commands@.skip(1),
                    removed(old(self).labels(), final(self).labels()),
                )
            },
            forall|label: Seq<char>| #[trigger]
                closes_of(commands@, label) == if old(self).labels().contains(Some(label))
                    && !final(self).labels().contains(Some(label)) {
                    1nat
                } else {
                    0nat
                },
            old(self).is_running() && final(self).labels() == old(self).labels()
                ==> commands@.len() == 1,
    {
        let mut commands: Vec<Command<M, W>> = Vec::new();
        if !self.running {
            return commands;
        }
        let element = self.program.show(&self.state);
        let labels = element.labels();
        let closes = removed_labels(&self.labels, &labels);
        self.labels = labels;
        commands.push(Command::Render(element));
        let ghost gone = names(closes@);
        let mut rest = crate::list::reversed(closes);
        let ghost mut done: int = 0;
        while rest.len() > 0
            invariant
                0 <= done <= gone.len(),
                rest@.len() + done == gone.len(),
                forall|i: int|
                    0 <= i < rest@.len() ==> (#[trigger] rest@[i])@ == gone[gone.len() - 1 - i],
                commands@.len() == 1 + done,
                commands@[0] == Command::<M, W>::Render(element),
                forall|i: int|
                    0 <= i < done ==> (#[trigger] commands@[i + 1] matches Command::Close(l) && l@
                        == gone[i]),
            decreases rest.len(),
        {
            let label = rest.pop().unwrap();
            commands.push(Command::Close(label));
            proof {
                done = done + 1;
            }
        }
        proof {
            let tail = commands@.skip(1);
            assert forall|i: int| 0 <= i < tail.len() implies (#[trigger] tail[i] matches Command::Close(
                l,
            ) && l@ == gone[i]) by {
                assert(tail[i] == commands@[i + 1]);
            }
            let head = commands@.take(1);
            assert(commands@ =~= head + tail);
            assert(head.drop_last() =~= Seq::<Command<M, W>>::empty());
            assert(head.last() == commands@[0]);
            crate::labels::lemma_removed(old(self).labels(), self.labels());
            assert forall|label: Seq<char>| #[trigger]
                closes_of(commands@, label) == if old(self).labels().contains(Some(label))
                    && !self.labels().contains(Some(label)) {
                    1nat
                } else {
                    0nat
                } by {
                lemma_closes_add(head, tail, label);
                assert(closes_of(head.drop_last(), label) == 0);
                assert(closes_of(head, label) == 0);
                lemma_closing_once(tail, gone, label);
            }
            if self.labels() == old(self).labels() {
                crate::labels::law_same_view_closes_nothing(self.labels());
            }
        }
        commands
    }

    /// Takes a message in.
    ///
    /// The state is updated with the message, which gives a task; the new
    /// state is shown, which gives an element. The commands are, in this
    /// order: to give the task to the pool, to render the element, and to
    /// close each label that the previous view had and this one lacks.
    ///
    /// So a label that the previous view had and the new view lacks is closed
    /// exactly once, no other label is closed, and a view that comes out with
    /// the labels it had closes nothing.
    ///
    /// A stopped application takes no message: nothing changes and nothing is
    /// asked.
    pub fn on_message(&mut self, message: M) -> (commands: Vec<Command<M, W>>)
        ensures
            forall|label: Seq<char>| #[trigger]
                closes_of(commands@, label) == if old(self).labels().contains(Some(label))
                    && !final(self).labels().contains(Some(label)) {
                    1nat
                } else {
                    0nat
                },
            final(self).labels() == old(self).labels() ==> commands@.len() == 0 || commands@.len()
                == 2,
            !old(self).is_running() ==> *final(self) == *old(self) && commands@.len() == 0,
            final(self).is_running() == old(self).is_running(),
            final(self).factory() == old(self).factory(),
            final(self).updater() == old(self).updater(),
            final(self).viewer() == old(self).viewer(),
            old(self).is_running() ==> {
                &&& commands@.len() >= 2
                &&& commands@[0] matches Command::Dispatch(task) && exists|s: &mut S|
                    *s == old(self).state() && *final(s) == final(self).state() && call_ensures(
                        old(self).updater(),
                        (s, message),
                        task,
                    )
                &&& commands@[1] matches Command::Render(element) && old(self).viewer().ensures(
                    (&final(self).state(),),
                    element,
                ) && final(self).labels() == element.spec_labels()
                &&& closing(
                    commands@.skip(2),
                    removed(old(self).labels(), final(self).labels()),
                )
            },
    {
        let mut commands: Vec<Command<M, W>> = Vec::new();
        if !self.running {
            return commands;
        }
        let task = self.program.update(&mut self.state, message);
        commands.push(Command::Dispatch(task));
        let ghost head = commands@;
        let mut rendered = self.render();
        let ghost tail = rendered@;
        commands.append(&mut rendered);
        proof {
            assert(commands@ =~= head + tail);
            assert(commands@.skip(2) =~= tail.skip(1));
            assert(head.drop_last() =~= Seq::<Command<M, W>>::empty());
            assert forall|label: Seq<char>| #[trigger]
                closes_of(commands@, label) == closes_of(tail, label) by {
                lemma_closes_add(head, tail, label);
                assert(closes_of(head.drop_last(), label) == 0);
            }
        }
        commands
    }

    /// Takes a directive in.
    ///
    /// `Stop` stops the application, for good. `ResetState` replaces the
    /// state by a fresh one. `Submit` asks to render the element and `Close`
    /// to close the label; neither touches the state or the labels of the
    /// view.
    ///
    /// A stopped application takes no directive: nothing changes and nothing
    /// is asked.
    pub fn on_directive(&mut self, directive: ApplicationDirective<M>) -> (commands: Vec<
        Command<M, W>,
    >)
        ensures
            !old(self).is_running() ==> *final(self) == *old(self) && commands@.len() == 0,
            final(self).factory() == old(self).factory(),
            final(self).updater() == old(self).updater(),
            final(self).viewer() == old(self).viewer(),
            final(self).labels() == old(self).labels(),
            old(self).is_running() ==> match directive {
                ApplicationDirective::Stop => !final(self).is_running() && final(self).state()
                    == old(self).state() && commands@.len() == 0,
                ApplicationDirective::ResetState => final(self).is_running() && old(
                    self,
                ).factory().ensures((), final(self).state()) && commands@.len() == 0,
                ApplicationDirective::Submit(element) => *final(self) == *old(self) && commands@
                    == seq![Command::<M, W>::Render(element)],
                ApplicationDirective::Close(label) => *final(self) == *old(self) && commands@
                    == seq![Command::<M, W>::Close(label)],
            },
    {
        let mut commands: Vec<Command<M, W>> = Vec::new();
        if !self.running {
            return commands;
        }
        match directive {
            ApplicationDirective::Stop => {
                self.running = false;
            },
            ApplicationDirective::ResetState => {
                self.state = self.program.make();
            },
            ApplicationDirective::Submit(element) => {
                commands.push(Command::Render(element));
                assert(commands@ =~= seq![Command::<M, W>::Render(element)]);
            },
            ApplicationDirective::Close(label) => {
                commands.push(Command::Close(label));
                assert(commands@ =~= seq![Command::<M, W>::Close(label)]);
            },
        }
        commands
    }
}

/// Which part of a running application came to an end first, and how.
///
/// An inner result is how the part itself ended; an outer one, where there
/// is one, says whether the part could be waited for at all.
pub enum Ending<E> {
    /// The pool stopped taking tasks.
    Pool(Result<(), E>),
    /// The application loop was stopped.
    Loop(Result<Result<(), E>, E>),
    /// The backend returned.
    Backend(Result<Result<(), E>, E>),
    /// The user interrupted the application.
    Interrupt(Result<(), E>),
}

impl<E> Ending<E> {
    /// How the application as a whole ends: as the part that ended first,
    /// with the failure to wait for it counting as its failure.
    pub open spec fn spec_status(self) -> Result<(), E> {
        match self {
            Ending::Pool(r) => r,
            Ending::Interrupt(r) => r,
            Ending::Loop(Ok(r)) => r,
            Ending::Loop(Err(e)) => Err(e),
            Ending::Backend(Ok(r)) => r,
            Ending::Backend(Err(e)) => Err(e),
        }
    }

    /// How the application as a whole ends.
    pub fn status(self) -> (r: Result<(), E>)
        ensures
            r == self.spec_status(),
    {
        match self {
            Ending::Pool(r) => r,
            Ending::Interrupt(r) => r,
            Ending::Loop(Ok(r)) => r,
            Ending::Loop(Err(e)) => Err(e),
            Ending::Backend(Ok(r)) => r,
            Ending::Backend(Err(e)) => Err(e),
        }
    }
}


} // verus!
