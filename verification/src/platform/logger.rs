//! A logging interface usable without an operating system.
use vstd::prelude::*;

verus! {

#[derive(Debug, Clone, Copy, PartialEq, Eq, Structural)]
pub enum LogLevel {
    Info,
    Warning,
    Error,
}

pub trait Logger {
    fn log(&self, level: LogLevel, message: &str);
}

} // verus!
