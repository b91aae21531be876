//! Actors that orchestrate and perform the candidate search: client handles
//! to the actors, the messages they exchange, and the decisions they make.

pub mod channel;
pub mod logger;
pub mod reducer;
pub mod sigint;
pub mod supervisor;
pub mod worker;

pub use self::reducer::{Reducer, ReducerId, ReducerMessage};
pub use self::sigint::{Sigint, SigintMessage};
pub use self::supervisor::{Supervisor, SupervisorMessage};
pub use self::worker::{Worker, WorkerId, WorkerMessage};
