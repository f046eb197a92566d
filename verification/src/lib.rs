//! Runtime management of SSH remote-development port forwards.
//!
//! Forwards can be added and removed on a live connection without reconnecting. Each is backed by
//! a dedicated `ssh -N -L ...` child process, whose handle lives inside the manager; dropping it
//! tears down exactly that forward.
//!
//! [`manager`] holds the forwards of a connection and decides what happens to them; [`model`] says
//! in mathematics what each of its operations does, [`effects`] what comes of each, and [`laws`]
//! what holds whatever is done.
//! [`panel`] is the panel around it: its form, and what it shows. None of this starts processes or
//! talks to the network. Operations say what has to be done outside, and take the outcome.
#![allow(unused_imports)]

pub mod detect;
pub mod effects;
pub mod forward;
pub mod key;
pub mod launch;
pub mod laws;
pub mod manager;
pub mod model;
pub mod panel;
pub mod polling;
pub mod rows;
pub mod seqs;
pub mod settings;
pub mod text;
