//! The reactive core of an Elm-style application runtime.
//!
//! A [`task::Task`] describes deferred work as a tree of jobs, batches,
//! sequences and lifecycle directives. A [`pool::TaskPool`] decides what
//! such a tree asks of the outside world and in which order, and an
//! [`application::Runtime`] decides what a message or a directive does to
//! the state, the rendered view and the labels that are alive. Both are
//! state machines that take one event and return the commands for a driver
//! to carry out; neither waits, sleeps or spawns.

pub mod application;
pub mod driver;
pub mod element;
pub mod event;
pub mod labels;
pub mod layout;
pub mod list;
pub mod mailbox;
pub mod mapper;
pub mod pool;
pub mod pool_laws;
pub mod pool_lemmas;
pub mod surface;
pub mod task;
pub mod widget;
