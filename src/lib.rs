//! A pager's navigation core: a cursor of five line markers over a text file,
//! and the bounded-window read that recovers line boundaries around it.

pub mod arguments;
pub mod file;
pub mod window;
pub mod lemmas;
