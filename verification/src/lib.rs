//! Clairvoyance: the specification side of a symbolic execution engine for
//! Clarity smart contracts.
//!
//! The library holds what can be stated and proved without the Clarity VM:
//! finding the `(@clairvoyance ...)` programs in a function's comments,
//! decoding specification expressions into symbolic operations, the
//! bookkeeping that compares computed terminating states with the halting
//! states a specification gives, the SMT encoding of a path predicate, and the
//! command-line front end's decisions and reports.

pub mod text;
pub mod scan;
pub mod symop;
pub mod state;
pub mod failures;
pub mod matching;
pub mod error;
pub mod expr;
pub mod decode;
pub mod render;
pub mod command;
pub mod smt;
pub mod cli;
pub mod induct;
pub mod report;
pub mod brief;
pub mod contract;
pub mod simplify;
pub mod show;
pub mod args;


