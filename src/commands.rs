use vstd::prelude::*;

verus! {

/// The program and arguments that run a command line through the
/// platform's shell.
pub struct ShellInvocation {
    pub program: String,
    pub args: Vec<String>,
}

/// On Windows `cmd /C <command>`, elsewhere `sh -c <command>`.
pub fn shell_invocation(command: &str, windows: bool) -> (r: ShellInvocation)
    ensures
        r.program@ == (if windows { "cmd"@ } else { "sh"@ }),
        r.args@.len() == 2,
        r.args@[0]@ == (if windows { "/C"@ } else { "-c"@ }),
        r.args@[1]@ == command@,
{
    let (program, flag) = if windows {
        (String::from_str("cmd"), String::from_str("/C"))
    } else {
        (String::from_str("sh"), String::from_str("-c"))
    };
    let mut args: Vec<String> = Vec::new();
    args.push(flag);
    args.push(String::from_str(command));
    ShellInvocation { program, args }
}

/// What a finished command yields: its standard output where it succeeded,
/// its standard error otherwise.
pub fn command_outcome(success: bool, stdout: String, stderr: String) -> (r: Result<String, String>)
    ensures
        r == (if success { Ok::<String, String>(stdout) } else { Err::<String, String>(stderr) }),
{
    if success {
        Ok(stdout)
    } else {
        Err(stderr)
    }
}

} // verus!
