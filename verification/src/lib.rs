//! Verified core of AutoTyper, a character-level text input helper.
use vstd::prelude::*;

pub mod cli;
pub mod config;
pub mod countdown;
pub mod engine;
pub mod gui;
pub mod numbers;
pub mod screen;
pub mod session;
pub mod text;

verus! {

} // verus!
