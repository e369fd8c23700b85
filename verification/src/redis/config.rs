//! What can go wrong while reading a configuration.

use vstd::prelude::*;
use crate::redis::string::SplitArgsError;

verus! {

#[derive(Debug, Clone, PartialEq, Eq)]
pub enum ConfigError {
    SplitArgs(SplitArgsError),
    ParseNumber(Vec<u8>),
    InvalidBool,
    WrongArity,
    Custom(Vec<u8>),
}

} // verus!
