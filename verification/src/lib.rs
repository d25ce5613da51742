//! Verified core of the Wombat AWS companion: naming rules for AWS
//! resources, profile resolution, proxy port bookkeeping and the decisions
//! taken around the AWS, database and HTTP calls that the application makes.
use vstd::prelude::*;

pub mod commands;
pub mod deps;
pub mod ecs;
pub mod external;
pub mod global_db;
pub mod kv;
pub mod logs;
pub mod profiles;
pub mod proxy;
pub mod resources;
pub mod secrets;
pub mod session;
pub mod shared;
pub mod text;
pub mod user;
pub mod wombat_api;

verus! {

} // verus!
