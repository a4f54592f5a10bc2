//! The agent's public vocabulary: how a session is configured, what a turn
//! replies, what can go wrong, and the checks a session makes before it
//! touches the workspace or the model.

use vstd::prelude::*;
use crate::text::{push_str, trim, trim_spec};
use crate::workspace::{PathProbe, Workspace, WorkspaceError, debug_quoted, debug_text, message_spec, new_spec};

verus! {

#[verifier::external_type_specification]
#[verifier::external_body]
pub struct ExPathBuf(std::path::PathBuf);

#[verifier::external_type_specification]
#[verifier::external_body]
pub struct ExHttpClientError(rig_core::http_client::Error);

#[verifier::external_type_specification]
#[verifier::external_body]
pub struct ExPromptError(rig_core::completion::PromptError);

/// How to start a session.
#[derive(Debug)]
pub struct AgentConfig {
    /// The Ollama model tag.
    pub model: String,
    /// The Ollama server address.
    pub ollama_base_url: String,
    /// The directory the agent may read.
    pub workspace_root: std::path::PathBuf,
}

/// The final answer of one agent turn.
#[derive(Debug)]
pub struct AgentReply {
    pub text: String,
}

/// Why a session could not start or a turn failed.
#[derive(Debug)]
pub enum AgentError {
    EmptyModel,
    EmptyPrompt,
    /// The workspace root could not be opened: the root as given, and why.
    Workspace { path: String, source: WorkspaceError },
    OllamaClient(rig_core::http_client::Error),
    Prompt(rig_core::completion::PromptError),
}

/// The message of an agent error, as the operator reads it.
pub open spec fn agent_message_spec(e: AgentError) -> Seq<char> {
    match e {
        AgentError::EmptyModel => "model name must not be empty"@,
        AgentError::EmptyPrompt => "prompt must not be empty"@,
        AgentError::Workspace { path, source } => "failed to initialize workspace at "@ + debug_text(
            path@,
        ) + ": "@ + message_spec(source@),
        AgentError::OllamaClient(_) => "failed to construct the Ollama client"@,
        AgentError::Prompt(_) => "agent turn failed"@,
    }
}

impl AgentError {
    /// The error's message.
    pub fn message(&self) -> (r: String)
        ensures
            r@ == agent_message_spec(*self),
    {
        match self {
            AgentError::EmptyModel => String::from_str("model name must not be empty"),
            AgentError::EmptyPrompt => String::from_str("prompt must not be empty"),
            AgentError::Workspace { path, source } => {
                let mut out = String::from_str("failed to initialize workspace at ");
                push_str(&mut out, debug_quoted(path.as_str()).as_str());
                push_str(&mut out, ": ");
                push_str(&mut out, source.message().as_str());
                out
            },
            AgentError::OllamaClient(_) => String::from_str("failed to construct the Ollama client"),
            AgentError::Prompt(_) => String::from_str("agent turn failed"),
        }
    }
}

impl AgentConfig {
    /// The model tag a session uses: the configured one without surrounding
    /// white space, refused when nothing is left.
    pub fn model_name(&self) -> (r: Result<String, AgentError>)
        ensures
            trim_spec(self.model@).len() == 0 ==> r is Err && r->Err_0 is EmptyModel,
            trim_spec(self.model@).len() > 0 ==> r is Ok && r->Ok_0@ == trim_spec(self.model@),
    {
        let model = trim(self.model.as_str());
        if model.as_str().is_empty() {
            Err(AgentError::EmptyModel)
        } else {
            Ok(model)
        }
    }
}

/// The text a turn sends to the model: the prompt without surrounding white
/// space, refused when nothing is left.
pub fn prompt_text(prompt: &str) -> (r: Result<String, AgentError>)
    ensures
        trim_spec(prompt@).len() == 0 ==> r is Err && r->Err_0 is EmptyPrompt,
        trim_spec(prompt@).len() > 0 ==> r is Ok && r->Ok_0@ == trim_spec(prompt@),
{
    let text = trim(prompt);
    if text.as_str().is_empty() {
        Err(AgentError::EmptyPrompt)
    } else {
        Ok(text)
    }
}

/// Opens the workspace a session reads, given what canonicalizing the
/// configured root reported; a failure names the root as configured.
pub fn open_workspace(root: &str, probe: PathProbe) -> (r: Result<Workspace, AgentError>)
    ensures
        match new_spec(root@, probe@) {
            Ok(canonical) => r is Ok && r->Ok_0@ == canonical,
            Err(e) => r is Err && r->Err_0 is Workspace && r->Err_0->path@ == root@
                && r->Err_0->source@ == e,
        },
{
    match Workspace::new(root, probe) {
        Ok(w) => Ok(w),
        Err(source) => Err(AgentError::Workspace { path: root.to_owned(), source }),
    }
}

} // verus!
