//! A verified core for a box-drawing shell prompt.
//!
//! The crate lays out two independently sized collections of text fragments
//! ("floats") against a terminal width and renders the chosen arrangement as
//! rows of Unicode box-drawing characters whose junctions stay consistent.
//! Reading the environment (working directory, branch, clock, user, host) and
//! printing the rows are left to the surrounding program; the library works on
//! plain values and is verified end to end.

pub mod fragments;
pub mod layout;
pub mod render;
