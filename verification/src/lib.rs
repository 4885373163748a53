use vstd::prelude::*;

pub mod text;
pub mod slurm;
pub mod scontrol;
pub mod nodes;
pub mod users;
pub mod queue;
pub mod tasks;
pub mod input;
pub mod history;
pub mod palette;
pub mod app;
pub mod layout;
pub mod view;
pub mod keys;
pub mod complete;

verus! {
}
