//! A flow-based programming framework: nodes joined by edges that are chosen
//! by the state each node reports after it ran.
pub mod agent;
pub mod config;
pub mod flow;
pub mod node;
pub mod request;
pub mod session;
pub mod sorting;
pub mod text;

pub use config::{AppConfig, GeneralConfig, ModelConfig, ProviderConfig};
pub use flow::{BatchFlow, Flow};
pub use node::{BaseNode, BaseState, BatchNode, Params, ProcessResult, ProcessState};
pub use session::SessionManager;
