use vstd::prelude::*;

pub mod actions;
pub mod domain;
pub mod history;
pub mod search;
pub mod text;
pub mod text_buffer;
pub mod undo;
pub mod views;
