//! Turning plain functions over entity components and shared resources into
//! schedulable units of work, with deferred structural edits.
pub mod id;
pub mod commands;
pub mod query;
pub mod resources;
pub mod signature;
pub mod system;
pub mod world;

pub use id::{lemma_next_is_fresh, IdIssuer, SystemId};
pub use commands::{Commands, Edit};
pub use query::{matching, write_through, Access, Query, QueryError, QueryItem, Write};
pub use resources::{Fetched, Registration, Resources};
pub use signature::{Param, Signature, SignatureError, SystemShape};
pub use system::{ExecutionMode, IntoForEachSystem, IntoQuerySystem, Effects, ExclusiveEffects, Invocation, SystemFn, ThreadLocalSystem, ThreadLocalSystemFn};
pub use world::{find_kind, has_kind, Component, EntityWorld};
