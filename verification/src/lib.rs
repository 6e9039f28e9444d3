//! A fine-grained, single-threaded reactive dependency-tracking engine.
//!
//! The engine offers three primitives — a mutable reactive cell (`Signal`),
//! a memoized computation (`Memo`) and a side-effecting reaction (`Effect`)
//! — that discover their own data dependencies while they evaluate and
//! re-evaluate exactly the affected part of the dependency graph when a
//! cell changes.  All shared state (the result cache, the two context
//! stacks and the entity tables) lives in an explicit `Runtime` value that
//! every operation takes by mutable reference, so independent reactive
//! worlds can coexist and be reasoned about in isolation.
#![allow(unused_imports)]

use vstd::prelude::*;

pub mod cache;
mod effect;
mod engine;
mod evaluator;
mod expr;
pub mod laws;
mod memo;
mod observable;
mod runtime;
pub mod sem;
mod signal;
pub mod state;
mod value;

pub use effect::Effect;
pub use evaluator::Evaluator;
pub use expr::{Body, BodyV, Expr, ExprV};
pub use memo::Memo;
pub use runtime::{CACHE_CAP, Runtime};
pub use signal::Signal;
pub use state::{CellV, MemoV, ReactV, RtV};
pub use value::{ValV, Value};
