//! Identity and token core: account registration and login, credential
//! hashing, signed time-bound identity tokens, and safe profile projection.
use vstd::prelude::*;

pub mod text;
pub mod api;
pub mod origin_control;
pub mod account;
pub mod store;
pub mod email;
pub mod user;
pub mod token;
pub mod headers;
pub mod utils;
