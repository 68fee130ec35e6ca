//! A toolkit for a minimal tape machine: emitters that build programs out of
//! typed cell operations, a parser for the program text, and an interpreter.
//!
//! The machine has a circular tape of bytes, a pointer, an input queue and
//! an output log. Its programs are text over `+ - < > , . [ ]`; every other
//! character is a comment.
//!
//! - [`builder::raw`] adds single instructions to a text.
//! - [`builder::tracking`] also keeps track of the cell that the pointer is
//!   on, and moves it by the shortest straight run of shifts. Text that is
//!   built with each loop closed where it was opened is never caught with
//!   the pointer moved when it runs; [`builder::steady`] proves it.
//! - [`builder::allocator`] hands out the slots of the tape as cells and
//!   compiles arithmetic, comparisons and boolean connectives on them. What
//!   the text of these operations does when it runs is proved in
//!   [`builder::allocator::semantics`].
//! - [`compiler`] parses a text into a tree of instructions.
//! - [`runner`] runs a tree on a tape. A run never goes on for ever: each
//!   loop is given a budget of passes, and a run that asks for more stops
//!   and says so.

pub mod builder;
pub mod compiler;
pub mod runner;
