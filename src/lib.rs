use vstd::prelude::*;

pub mod config;
pub mod csv;
pub mod fetch;
pub mod gateway;
pub mod json;
pub mod laws;
pub mod number;
pub mod record;
pub mod text;
pub mod xml;
