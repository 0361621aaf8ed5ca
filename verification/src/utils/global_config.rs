//! The settings that hold for a whole run.

use vstd::prelude::*;
use crate::utils::text::str_equal;

verus! {

/// The shell that commands are given to, and the tool that machines fetch
/// their files with: `curl` or `wget`.
#[derive(Debug)]
pub struct ShellConfig {
    pub shell: String,
    pub download_tool: String,
}

/// The download tool of a configuration that names none.
pub fn use_default_download_tool() -> (r: String)
    ensures
        r@ == "curl"@,
{
    "curl".to_string()
}

impl ShellConfig {
    /// Whether the download tool is one of the two that are supported.
    pub open spec fn supported(&self) -> bool {
        self.download_tool@ == "curl"@ || self.download_tool@ == "wget"@
    }

    /// Whether the download tool is `curl` or `wget`.
    pub fn is_supported(&self) -> (r: bool)
        ensures
            r == self.supported(),
    {
        str_equal(self.download_tool.as_str(), "curl") || str_equal(
            self.download_tool.as_str(),
            "wget",
        )
    }
}

/// The arguments that every call of `ssh` and `scp` gets.
#[derive(Debug)]
pub struct SshConfig {
    pub custom_args: String,
}

impl SshConfig {
    /// The configuration for the arguments as they stand in the file: a
    /// lone `~`, which stands there for an empty field, means no arguments.
    pub fn new(custom_args: String) -> (r: Self)
        ensures
            r.custom_args@ == if custom_args@ == "~"@ {
                Seq::<char>::empty()
            } else {
                custom_args@
            },
    {
        if str_equal(custom_args.as_str(), "~") {
            SshConfig { custom_args: String::new() }
        } else {
            SshConfig { custom_args }
        }
    }
}

/// What a machine has where the scenario leaves it out.
#[derive(Debug)]
pub struct DefaultValues {
    pub cpu_freq_mhz: usize,
    pub cpu_cores: usize,
    pub ram_gb: usize,
    pub capacity_gb: usize,
    pub disk_type: String,
    pub grade: u8,
    pub os_common: String,
    pub location: String,
    pub remote_access: bool,
    pub config_template: String,
    pub custom_script: String,
}

} // verus!
