use vstd::prelude::*;

pub mod commands;
pub mod config;
pub mod deps;
pub mod helpers;
pub mod replies;
pub mod status;
pub mod text;
pub mod warns;
