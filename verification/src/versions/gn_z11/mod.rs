//! GN-Z11 (v0.0.0): the first frozen module set.
pub mod tags;
pub mod validator;
pub mod rules;
