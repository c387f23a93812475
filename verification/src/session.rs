//! How a pane's shell is started: its argument vector and working directory.

use vstd::prelude::*;

verus! {

/// How to start the PTY child for a new terminal pane.
#[derive(Clone, Debug)]
pub struct SpawnOpts {
    /// Override cwd; when `None`, uses the process current directory.
    pub working_directory: Option<String>,
    /// When set, run `$SHELL -c <command>` instead of an interactive shell.
    pub command: Option<String>,
}

impl SpawnOpts {
    pub open spec fn is_plain(&self) -> bool {
        self.working_directory is None && self.command is None
    }
}

impl Default for SpawnOpts {
    fn default() -> (r: Self)
        ensures
            r.is_plain(),
    {
        SpawnOpts { working_directory: None, command: None }
    }
}

/// The shell to run: `$SHELL` when set, else `/bin/bash`.
pub fn shell_or_default(shell_var: Option<String>) -> (r: String)
    ensures
        r@ == (match shell_var {
            Some(s) => s@,
            None => "/bin/bash"@,
        }),
{
    match shell_var {
        Some(s) => s,
        None => String::from_str("/bin/bash"),
    }
}

/// The argument vector: the shell alone, or the shell running `command` with `-c`.
pub fn spawn_argv(shell: String, command: &Option<String>) -> (r: Vec<String>)
    ensures
        match command {
            Some(c) => r@.len() == 3 && r@[0]@ == shell@ && r@[1]@ == "-c"@ && r@[2]@ == c@,
            None => r@.len() == 1 && r@[0]@ == shell@,
        },
{
    let mut argv: Vec<String> = Vec::new();
    argv.push(shell);
    match command {
        Some(c) => {
            argv.push(String::from_str("-c"));
            argv.push(c.clone());
        },
        None => {},
    }
    argv
}

/// The directory the shell starts in: the one asked for, else the process's
/// current directory (when it is known and valid UTF-8).
pub fn spawn_dir(opts: &SpawnOpts, current_dir: Option<String>) -> (r: Option<String>)
    ensures
        match opts.working_directory {
            Some(d) => r matches Some(x) && x@ == d@,
            None => match current_dir {
                Some(c) => r matches Some(x) && x@ == c@,
                None => r is None,
            },
        },
{
    match &opts.working_directory {
        Some(d) => Some(d.clone()),
        None => current_dir,
    }
}

} // verus!
