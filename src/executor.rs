use vstd::prelude::*;
use crate::arguments::{Arguments, ArgumentsView};
use crate::config::{
    bash_name, env_bindings, input_fault, pairs_view, schemas_view, fault_message, ArgumentError, ArgumentFault,
    Config, Tool,
};
use crate::llm::ToolCall;

verus! {

/// Runs tools: holds the directory in which their commands run.
#[derive(Debug, Clone)]
pub struct Executor {
    pub working_dir: String,
}

/// Everything the command runner needs to run one tool call.
#[derive(Debug, Clone)]
pub struct CommandSpec {
    pub shell: String,
    pub command: String,
    pub env: Vec<(String, String)>,
    pub working_dir: String,
}

/// What the command runner reports back.
#[derive(Debug, Clone)]
pub struct CommandOutcome {
    pub success: bool,
    /// How the process ended, as the runner describes it.
    pub status: String,
    pub stdout: String,
    pub stderr: String,
}

/// Why a tool call produced no output; never fatal to the conversation.
#[derive(Debug, Clone)]
pub enum DispatchError {
    UnknownTool(String),
    MalformedArguments(String),
    InvalidArguments(ArgumentError),
    UnsupportedShell(String),
    ExecutionFailed { status: String, stdout: String, stderr: String },
}

pub open spec fn sh_name() -> Seq<char> {
    seq!['s', 'h']
}

pub open spec fn zsh_name() -> Seq<char> {
    seq!['z', 's', 'h']
}

pub open spec fn supported_shell(s: Seq<char>) -> bool {
    s == bash_name() || s == sh_name() || s == zsh_name()
}

/// The first tool of the registry with this name.
pub open spec fn find_tool(tools: Seq<Tool>, name: Seq<char>) -> Option<Tool>
    decreases tools.len(),
{
    if tools.len() == 0 {
        None
    } else if tools[0].name@ == name {
        Some(tools[0])
    } else {
        find_tool(tools.drop_first(), name)
    }
}

pub open spec fn resolved_shell(tool: Tool, default: Seq<char>) -> Seq<char> {
    match tool.shell {
        Some(s) => s@,
        None => default,
    }
}

/// What dispatching a call yields: the command to run, or the first reason
/// not to run one, checked in this order: the tool exists, its arguments
/// parsed, they pass its schemas, its shell is supported.
pub open spec fn dispatch_ok(
    config: Config,
    executor: Executor,
    call: ToolCall,
    r: Result<CommandSpec, DispatchError>,
) -> bool {
    match find_tool(config.tools@, call.function.name@) {
        None => r matches Err(DispatchError::UnknownTool(n)) && n@ == call.function.name@,
        Some(tool) => match call.function.arguments@ {
            ArgumentsView::Invalid(text) => r matches Err(DispatchError::MalformedArguments(t))
                && t@ == text,
            args => match input_fault(schemas_view(tool.input_schema@), args) {
                Some(f) => r matches Err(DispatchError::InvalidArguments(e)) && e@ == f,
                None => {
                    let shell = resolved_shell(tool, config.shell@);
                    if !supported_shell(shell) {
                        r matches Err(DispatchError::UnsupportedShell(s)) && s@ == shell
                    } else {
                        r matches Ok(c) && c.shell@ == shell && c.command@ == tool.command@
                            && pairs_view(c.env@) == env_bindings(args) && c.working_dir@
                            == executor.working_dir@
                    }
                },
            },
        },
    }
}

/// The output of a successful command: stdout and stderr joined by a line
/// break where both are non-empty, else whichever is non-empty.
pub open spec fn combined_output(stdout: Seq<char>, stderr: Seq<char>) -> Seq<char> {
    if stderr.len() == 0 {
        stdout
    } else if stdout.len() == 0 {
        stderr
    } else {
        stdout + seq!['\n'] + stderr
    }
}

fn find_tool_exec<'a>(tools: &'a Vec<Tool>, name: &String) -> (r: Option<&'a Tool>)
    ensures
        match r {
            Some(t) => find_tool(tools@, name@) == Some(*t),
            None => find_tool(tools@, name@) is None,
        },
{
    let mut i: usize = 0;
    assert(tools@.subrange(0, tools@.len() as int) =~= tools@);
    while i < tools.len()
        invariant
            i <= tools.len(),
            find_tool(tools@, name@) == find_tool(tools@.subrange(i as int, tools@.len() as int), name@),
        decreases tools.len() - i,
    {
        let ghost rest = tools@.subrange(i as int, tools@.len() as int);
        assert(rest.drop_first() =~= tools@.subrange(i + 1, tools@.len() as int));
        if tools[i].name == *name {
            return Some(&tools[i]);
        }
        i = i + 1;
    }
    assert(tools@.subrange(i as int, tools@.len() as int) =~= Seq::<Tool>::empty());
    None
}

fn is_supported_shell(s: &String) -> (r: bool)
    ensures
        r == supported_shell(s@),
{
    let bash = String::from_str("bash");
    let sh = String::from_str("sh");
    let zsh = String::from_str("zsh");
    proof {
        reveal_strlit("bash");
        reveal_strlit("sh");
        reveal_strlit("zsh");
        assert(bash@ =~= bash_name());
        assert(sh@ =~= sh_name());
        assert(zsh@ =~= zsh_name());
    }
    *s == bash || *s == sh || *s == zsh
}

impl Executor {
    /// An executor whose commands run in the given directory.
    pub fn new(working_dir: String) -> (r: Self)
        ensures
            r.working_dir == working_dir,
    {
        Executor { working_dir }
    }

    /// Decides how to run one tool call: looks the tool up, checks the
    /// arguments, resolves the shell and binds each argument to a
    /// `param_<key>` environment variable. Nothing runs on an error.
    pub fn dispatch(&self, config: &Config, call: &ToolCall) -> (r: Result<CommandSpec, DispatchError>)
        ensures
            dispatch_ok(*config, *self, *call, r),
    {
        let tool = match find_tool_exec(&config.tools, &call.function.name) {
            Some(t) => t,
            None => return Err(DispatchError::UnknownTool(call.function.name.clone())),
        };
        let args = &call.function.arguments;
        match args {
            Arguments::Invalid(text) => return Err(DispatchError::MalformedArguments(text.clone())),
            _ => {},
        }
        let command = match tool.build_command(args) {
            Ok(c) => c,
            Err(e) => return Err(DispatchError::InvalidArguments(e)),
        };
        let env = tool.build_env_vars(args);
        let shell = tool.get_shell(config.shell.as_str());
        if !is_supported_shell(&shell) {
            return Err(DispatchError::UnsupportedShell(shell));
        }
        Ok(CommandSpec { shell, command, env, working_dir: self.working_dir.clone() })
    }
}

/// Maps what the command runner reported to the call's result.
pub fn command_result(outcome: CommandOutcome) -> (r: Result<String, DispatchError>)
    ensures
        outcome.success ==> (r matches Ok(s) && s@ == combined_output(
            outcome.stdout@,
            outcome.stderr@,
        )),
        !outcome.success ==> (r matches Err(DispatchError::ExecutionFailed { status, stdout, stderr })
            && status@ == outcome.status@ && stdout@ == outcome.stdout@ && stderr@
            == outcome.stderr@),
{
    if !outcome.success {
        return Err(
            DispatchError::ExecutionFailed {
                status: outcome.status,
                stdout: outcome.stdout,
                stderr: outcome.stderr,
            },
        );
    }
    if outcome.stderr.unicode_len() == 0 {
        Ok(outcome.stdout)
    } else if outcome.stdout.unicode_len() == 0 {
        Ok(outcome.stderr)
    } else {
        let joined = outcome.stdout.concat("\n");
        proof {
            reveal_strlit("\n");
        }
        Ok(joined.concat(outcome.stderr.as_str()))
    }
}

/// The human-readable reason why a call produced no output.
pub open spec fn dispatch_message(e: DispatchError) -> Seq<char> {
    match e {
        DispatchError::UnknownTool(n) => "Tool not found: "@ + n@,
        DispatchError::MalformedArguments(t) => "Failed to parse tool arguments: "@ + t@,
        DispatchError::InvalidArguments(a) => fault_message(a@),
        DispatchError::UnsupportedShell(s) => "Unsupported shell: "@ + s@,
        DispatchError::ExecutionFailed { status, stdout, stderr } => "Command failed with exit code "@
            + status@ + "\nstdout: "@ + stdout@ + "\nstderr: "@ + stderr@,
    }
}

impl DispatchError {
    /// The human-readable reason why the call produced no output.
    pub fn message(&self) -> (r: String)
        ensures
            r@ == dispatch_message(*self),
    {
        match self {
            DispatchError::UnknownTool(n) => String::from_str("Tool not found: ").concat(n.as_str()),
            DispatchError::MalformedArguments(t) => String::from_str(
                "Failed to parse tool arguments: ",
            ).concat(t.as_str()),
            DispatchError::InvalidArguments(a) => a.message(),
            DispatchError::UnsupportedShell(s) => String::from_str("Unsupported shell: ").concat(
                s.as_str(),
            ),
            DispatchError::ExecutionFailed { status, stdout, stderr } => String::from_str(
                "Command failed with exit code ",
            ).concat(status.as_str()).concat("\nstdout: ").concat(stdout.as_str()).concat(
                "\nstderr: ",
            ).concat(stderr.as_str()),
        }
    }
}

pub open spec fn error_prefix() -> Seq<char> {
    "Error: "@
}

/// The content of the tool message that answers a call: its output, or
/// the reason it produced none, so that every call gets an answer.
pub fn tool_message_content(result: &Result<String, DispatchError>) -> (r: String)
    ensures
        match result {
            Ok(s) => r@ == s@,
            Err(e) => r@ == error_prefix() + dispatch_message(*e),
        },
{
    match result {
        Ok(s) => s.clone(),
        Err(e) => String::from_str("Error: ").concat(e.message().as_str()),
    }
}

} // verus!
