//! The replacements that hold for the whole deployment, and their use on the
//! script that runs once the deployment stands.

use vstd::prelude::*;
use vstd::string::StringExecFns;
use crate::utils::replace::{replace_outcome, ReplaceError, ReplaceFailPolicy, Replaced};
use crate::utils::strmap::StringMap;

verus! {

/// Gives the token `from` the value `to` in the map of global replacements.
pub fn add_global_replacement(map: &mut StringMap, from: &str, to: &str)
    requires
        old(map).wf(),
    ensures
        final(map).wf(),
        final(map)@ == old(map)@.insert(from@, to@),
{
    let from = String::from_str(from);
    let to = String::from_str(to);
    map.insert(from, to);
}

/// Substitutes the global replacements in a script. Before that, the tokens
/// `SSH_OPTIONS` and `SSH_CONFIG` get the arguments of `ssh` as their value.
/// A token without a value stays and is reported.
pub fn replace(script: &str, map: &mut StringMap, ssh_custom_args: &str) -> (r: Replaced)
    requires
        old(map).wf(),
    ensures
        final(map).wf(),
        final(map)@ == old(map)@.insert("SSH_OPTIONS"@, ssh_custom_args@).insert(
            "SSH_CONFIG"@,
            ssh_custom_args@,
        ),
        replace_outcome(
            script@,
            final(map)@,
            ReplaceFailPolicy::Warn,
            Ok::<Replaced, ReplaceError>(r),
        ),
{
    add_global_replacement(map, "SSH_OPTIONS", ssh_custom_args);
    add_global_replacement(map, "SSH_CONFIG", ssh_custom_args);
    match crate::utils::replace::replace(script, map, ReplaceFailPolicy::Warn) {
        Ok(r) => r,
        Err(_) => vstd::pervasive::unreached(),
    }
}

} // verus!
