use vstd::prelude::*;

pub mod text;
pub mod system;
pub mod disk;
pub mod logger;
pub mod shred;
pub mod jobs;

verus! {
}
