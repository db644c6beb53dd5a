//! The shell-execution interface: a request/response pair and the handler
//! trait a deployment supplies — or declines to, via [`NoShell`].

use vstd::prelude::*;

verus! {

/// Command execution failed.
#[derive(Debug)]
pub struct Error {}

/// A command execution backend; nothing is promised of what a command
/// returns.
pub trait Shell: Sized {
    /// Runs one command.
    fn exec(&self, request: Request) -> Result<Response, Error>;
}

/// The same capability under the name used by older embeddings.
pub trait Handler: Sized {
    /// Runs one command.
    fn handle(&self, request: Request) -> Result<Response, Error>;
}

/// A command to run, with arguments and optional standard input.
#[derive(Debug)]
pub struct Request {
    pub cmd: String,
    pub args: Vec<String>,
    pub stdin: Option<String>,
}

/// The outcome of a command: exit code and captured output.
#[derive(Debug)]
pub struct Response {
    pub code: u16,
    pub stdout: String,
    pub stderr: String,
}

/// A shell that runs nothing: every request answers exit code 1 with an
/// explanatory error message.
#[derive(Debug, Default)]
pub struct NoShell {}

impl Shell for NoShell {
    fn exec(&self, request: Request) -> (r: Result<Response, Error>)
        ensures
            r matches Ok(resp) && resp.code == 1 && resp.stdout@ == Seq::<char>::empty()
                && resp.stderr@ == "Not supported"@,
    {
        proof {
            reveal_strlit("");
            assert(""@ =~= Seq::<char>::empty());
        }
        Ok(
            Response {
                code: 1,
                stdout: "".to_owned(),
                stderr: "Not supported".to_owned(),
            },
        )
    }
}

impl Handler for NoShell {
    fn handle(&self, request: Request) -> (r: Result<Response, Error>)
        ensures
            r matches Ok(resp) && resp.code == 1 && resp.stdout@ == Seq::<char>::empty()
                && resp.stderr@ == "Not supported"@,
    {
        proof {
            reveal_strlit("");
            assert(""@ =~= Seq::<char>::empty());
        }
        Ok(
            Response {
                code: 1,
                stdout: "".to_owned(),
                stderr: "Not supported".to_owned(),
            },
        )
    }
}

} // verus!
