//! Core of a terminal-resident task tracker: an ordered store of tasks with
//! due dates and completion flags, a transient form editor, a sort machine,
//! a persistence codec, and the controller that routes logical commands.

pub mod clock;
pub mod codec;
pub mod controller;
pub mod date;
pub mod form;
pub mod sort;
pub mod store;
pub mod task;
