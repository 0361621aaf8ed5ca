//! What is known of a command after it ran, and when to run it again.

use vstd::prelude::*;

verus! {

/// How a command ended.
pub trait RunInfo {
    /// The exit code of the command; `None` where it could not be started.
    spec fn outcome(&self) -> Option<isize>;

    /// Whether the command could not be started.
    fn not_found(&self) -> (r: bool)
        ensures
            r == (self.outcome() is None),
    ;

    /// Whether the command ran and gave an exit code other than zero.
    fn non_zero_exit(&self) -> (r: bool)
        ensures
            r == (self.outcome() is Some && self.outcome()->0 != 0),
    ;

    /// Whether the command could not be started or gave an exit code other
    /// than zero.
    fn failure(&self) -> (r: bool)
        ensures
            r == (self.outcome() != Some(0isize)),
    ;
}

/// What a command that ran left behind.
#[derive(Debug)]
pub struct RunDetails {
    pub stdout: String,
    pub stderr: String,
    pub exit_code: isize,
}

/// A command, the shell it was given to, and what it left behind if it ran.
#[derive(Debug)]
pub struct RunResult {
    result: Option<RunDetails>,
    command: String,
    shell: String,
}

impl RunInfo for RunResult {
    closed spec fn outcome(&self) -> Option<isize> {
        match self.result {
            Some(d) => Some(d.exit_code),
            None => None,
        }
    }

    fn not_found(&self) -> (r: bool) {
        self.result.is_none()
    }

    fn non_zero_exit(&self) -> (r: bool) {
        match &self.result {
            Some(d) => d.exit_code != 0,
            None => false,
        }
    }

    fn failure(&self) -> (r: bool) {
        self.not_found() || self.non_zero_exit()
    }
}

impl RunResult {
    /// What the command left behind, if it ran.
    pub closed spec fn details(&self) -> Option<RunDetails> {
        self.result
    }

    /// The record of a command; `result` is `None` where the command could
    /// not be started.
    pub fn new(command: String, shell: String, result: Option<RunDetails>) -> (r: Self)
        ensures
            r.details() == result,
            r.command_spec() == command@,
            r.shell_spec() == shell@,
            r.outcome() == match result {
                Some(d) => Some(d.exit_code),
                None => None,
            },
    {
        RunResult { result, command, shell }
    }

    /// The command's text.
    pub closed spec fn command_spec(&self) -> Seq<char> {
        self.command@
    }

    /// The shell's name.
    pub closed spec fn shell_spec(&self) -> Seq<char> {
        self.shell@
    }

    /// The command's text.
    pub fn command(&self) -> (r: &String)
        ensures
            r@ == self.command_spec(),
    {
        &self.command
    }

    /// The shell's name.
    pub fn shell(&self) -> (r: &String)
        ensures
            r@ == self.shell_spec(),
    {
        &self.shell
    }

    /// What the command wrote to its standard output.
    pub fn stdout(&self) -> (r: &String)
        requires
            self.details() is Some,
        ensures
            *r == self.details()->0.stdout,
    {
        match &self.result {
            Some(d) => &d.stdout,
            None => &self.command,
        }
    }

    /// What the command wrote to its standard error.
    pub fn stderr(&self) -> (r: &String)
        requires
            self.details() is Some,
        ensures
            *r == self.details()->0.stderr,
    {
        match &self.result {
            Some(d) => &d.stderr,
            None => &self.command,
        }
    }

    /// The command's exit code.
    pub fn error_code(&self) -> (r: isize)
        requires
            self.details() is Some,
        ensures
            r == self.details()->0.exit_code,
    {
        match &self.result {
            Some(d) => d.exit_code,
            None => 0,
        }
    }

    /// Whether the command ran and gave the exit code zero.
    pub fn check_success(&self) -> (r: bool)
        ensures
            r == (self.outcome() == Some(0isize)),
    {
        match &self.result {
            Some(d) => d.exit_code == 0,
            None => false,
        }
    }

    /// Whether the command ran.
    pub fn has_run(&self) -> (r: bool)
        ensures
            r == (self.details() is Some),
    {
        self.result.is_some()
    }

    /// Whether the command ran and wrote nothing, neither to its standard
    /// output nor to its standard error.
    pub fn has_output(&self) -> (r: bool)
        ensures
            r == (self.details() is Some && self.details()->0.stderr@.len() == 0
                && self.details()->0.stdout@.len() == 0),
    {
        match &self.result {
            Some(res_det) => res_det.stderr.as_str().is_empty() && res_det.stdout.as_str().is_empty(),
            None => false,
        }
    }
}

/// A command, whether it ran, and its exit code.
#[derive(Debug)]
pub struct RunSummary {
    exit_code: isize,
    did_run: bool,
    command: String,
}

impl RunSummary {
    /// The record of a command. The exit code of one that did not run is
    /// kept as it is given.
    pub fn new(exit_code: isize, did_run: bool, command: String) -> (r: Self)
        ensures
            r.code() == exit_code,
            r.ran() == did_run,
            r.command_spec() == command@,
    {
        RunSummary { exit_code, did_run, command }
    }

    /// The exit code on record.
    pub closed spec fn code(&self) -> isize {
        self.exit_code
    }

    /// Whether the command ran.
    pub closed spec fn ran(&self) -> bool {
        self.did_run
    }

    /// The command's text.
    pub closed spec fn command_spec(&self) -> Seq<char> {
        self.command@
    }

    /// The exit code on record.
    pub fn exit_code(&self) -> (r: isize)
        ensures
            r == self.code(),
    {
        self.exit_code
    }

    /// The command's text.
    pub fn command(&self) -> (r: &String)
        ensures
            r@ == self.command_spec(),
    {
        &self.command
    }
}

impl RunInfo for RunSummary {
    open spec fn outcome(&self) -> Option<isize> {
        if self.ran() {
            Some(self.code())
        } else {
            None
        }
    }

    fn not_found(&self) -> (r: bool) {
        !self.did_run
    }

    fn non_zero_exit(&self) -> (r: bool) {
        self.did_run && self.exit_code != 0
    }

    fn failure(&self) -> (r: bool) {
        self.not_found() || self.non_zero_exit()
    }
}

/// Whether a command name is a single word: it holds no space.
pub fn is_single_word(command: &str) -> (r: bool)
    ensures
        r == !command@.contains(' '),
{
    let chars = crate::utils::text::chars_of(command);
    let mut k: usize = 0;
    while k < chars.len()
        invariant
            k <= chars@.len(),
            chars@ == command@,
            forall|j: int| 0 <= j < k ==> chars@[j] != ' ',
        decreases chars@.len() - k,
    {
        if chars[k] == ' ' {
            return false;
        }
        k = k + 1;
    }
    true
}

/// What to do after one try of a command that is run up to `num_tries`
/// times.
#[derive(Clone, Copy, Debug, PartialEq, Eq, Structural)]
pub enum TryAction {
    /// The command succeeded: hand its record back.
    Done,
    /// The command failed and tries are left: wait, then run it again.
    Again,
    /// The command failed at the last try: hand the record of that try back.
    GiveUp,
}

/// Decides what follows the try with number `tries_done` (the first try has
/// number 1) of a command that is run until it succeeds, `num_tries` times at
/// most.
pub fn next_try(num_tries: usize, tries_done: usize, failed: bool) -> (r: TryAction)
    requires
        1 <= tries_done <= num_tries,
    ensures
        r == if !failed {
            TryAction::Done
        } else if tries_done < num_tries {
            TryAction::Again
        } else {
            TryAction::GiveUp
        },
{
    if !failed {
        TryAction::Done
    } else if tries_done < num_tries {
        TryAction::Again
    } else {
        TryAction::GiveUp
    }
}

} // verus!
