//! Verified core of `fey`, a read-only coding assistant: the workspace
//! sandbox, the two read-only tools and how their failures reach the model,
//! the agent's configuration and error vocabulary, and the terminal's state
//! machine and text layout.

pub mod agent;
pub mod list_directory;
pub mod load;
pub mod paths;
pub mod read_file;
pub mod text;
pub mod tools;
pub mod tui;
pub mod workspace;

pub use agent::{AgentConfig, AgentError, AgentReply};
