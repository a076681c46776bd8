//! The Codex CLI adapter: launches `codex` (OpenAI Codex CLI) with the
//! handoff prompt and reports how the session went.

use vstd::prelude::*;

use crate::text::{opt_view, signed_decimal, signed_decimal_string, trim, trim_string, views};

verus! {

/// The `[agents.codex]` section of the relay configuration.
#[derive(Debug)]
pub struct CodexConfig {
    /// The executable to run; `codex` when not set.
    pub binary: Option<String>,
    /// The model passed with `-m`.
    pub model: String,
}

/// Whether an agent can be used, and why.
#[derive(Debug)]
pub struct AgentStatus {
    pub name: String,
    pub available: bool,
    pub reason: String,
    pub version: Option<String>,
}

/// How a handoff to an agent ended.
#[derive(Debug)]
pub struct HandoffResult {
    pub agent: String,
    pub success: bool,
    pub message: String,
    pub handoff_file: Option<String>,
}

/// The Codex adapter: which executable to run and with which model.
#[derive(Debug)]
pub struct CodexAgent {
    binary: String,
    model: String,
}

/// `format!("{:?}", code)` for an exit code: `Some(<code>)` or `None`.
pub open spec fn exit_code_debug(code: Option<i32>) -> Seq<char> {
    match code {
        Some(c) => "Some("@ + signed_decimal(c as int) + ")"@,
        None => "None"@,
    }
}

fn exit_code_text(code: Option<i32>) -> (r: String)
    ensures
        r@ == exit_code_debug(code),
{
    match code {
        Some(c) => {
            let mut s = String::from_str("Some(");
            s.append(signed_decimal_string(c as i64).as_str());
            s.append(")");
            s
        },
        None => String::from_str("None"),
    }
}

impl CodexAgent {
    /// The executable this adapter runs.
    pub closed spec fn binary_view(&self) -> Seq<char> {
        self.binary@
    }

    /// The model this adapter asks for.
    pub closed spec fn model_view(&self) -> Seq<char> {
        self.model@
    }

    /// The adapter for a configuration: its binary, or `codex`, and its model.
    pub fn new(config: &CodexConfig) -> (r: Self)
        ensures
            r.binary_view() == match config.binary {
                Some(b) => b@,
                None => "codex"@,
            },
            r.model_view() == config.model@,
    {
        let binary = match &config.binary {
            Some(b) => b.clone(),
            None => String::from_str("codex"),
        };
        CodexAgent { binary, model: config.model.clone() }
    }

    /// The agent's name: `codex`.
    pub fn name(&self) -> (r: &'static str)
        ensures
            r@ == "codex"@,
    {
        "codex"
    }

    /// The executable this adapter runs.
    pub fn binary(&self) -> (r: &str)
        ensures
            r@ == self.binary_view(),
    {
        self.binary.as_str()
    }

    /// The model this adapter asks for.
    pub fn model(&self) -> (r: &str)
        ensures
            r@ == self.model_view(),
    {
        self.model.as_str()
    }

    /// The availability report, given where the executable was found on the
    /// `PATH` (if anywhere) and, when found, what `--version` printed when it
    /// succeeded.
    pub fn availability(&self, found_path: Option<String>, version_output: Option<String>) -> (r:
        AgentStatus)
        ensures
            r.name@ == "codex"@,
            r.available == found_path is Some,
            found_path matches Some(path) ==> {
                &&& r.reason@ == "Found at "@ + path@
                &&& opt_view(r.version) == match version_output {
                    Some(out) => Some(trim(out@)),
                    None => None,
                }
            },
            found_path is None ==> {
                &&& r.reason@ == "'"@ + self.binary_view() + "' not found in PATH"@
                &&& r.version is None
            },
    {
        match found_path {
            Some(path) => {
                let mut reason = String::from_str("Found at ");
                reason.append(path.as_str());
                let version = match version_output {
                    Some(out) => Some(trim_string(out.as_str())),
                    None => None,
                };
                AgentStatus { name: String::from_str("codex"), available: true, reason, version }
            },
            None => {
                let mut reason = String::from_str("'");
                reason.append(self.binary.as_str());
                reason.append("' not found in PATH");
                AgentStatus {
                    name: String::from_str("codex"),
                    available: false,
                    reason,
                    version: None,
                }
            },
        }
    }

    /// The arguments Codex is started with: full-auto mode, the model, and
    /// the handoff prompt as the first message.
    pub fn launch_args(&self, handoff_prompt: &str) -> (r: Vec<String>)
        ensures
            views(r@) == seq!["--full-auto"@, "-m"@, self.model_view(), handoff_prompt@],
    {
        let mut args: Vec<String> = Vec::new();
        args.push(String::from_str("--full-auto"));
        args.push(String::from_str("-m"));
        args.push(self.model.clone());
        args.push(String::from_str(handoff_prompt));
        assert(views(args@) =~= seq!["--full-auto"@, "-m"@, self.model_view(), handoff_prompt@]);
        args
    }

    /// How the Codex session ended, from its exit status and the file the
    /// handoff was written to.
    pub fn session_result(&self, success: bool, exit_code: Option<i32>, handoff_file: String) -> (r:
        HandoffResult)
        ensures
            r.agent@ == "codex"@,
            r.success == success,
            success ==> r.message@ == "Codex ("@ + self.model_view() + ") session ended"@,
            !success ==> r.message@ == "Codex exited with code "@ + exit_code_debug(exit_code),
            opt_view(r.handoff_file) == Some(handoff_file@),
    {
        let message = if success {
            let mut m = String::from_str("Codex (");
            m.append(self.model.as_str());
            m.append(") session ended");
            m
        } else {
            let mut m = String::from_str("Codex exited with code ");
            m.append(exit_code_text(exit_code).as_str());
            m
        };
        HandoffResult {
            agent: String::from_str("codex"),
            success,
            message,
            handoff_file: Some(handoff_file),
        }
    }
}

} // verus!
