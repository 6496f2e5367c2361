//! What an installation is started with, and what counts as its result.

use vstd::prelude::*;
use crate::text::{chars_of, push_str, string_of};
use crate::version::{NodeVersion, Version};

verus! {

/// The script of the version manager below `home`, which the installer
/// loads.
pub fn nvm_script_path(home: &str) -> (script: String)
    ensures
        script@ == home@ + "/.nvm//nvm.sh"@,
{
    let mut script = chars_of(home);
    push_str(&mut script, "/.nvm//nvm.sh");
    string_of(&script)
}

/// The version that was installed, from what the pin resolves to after the
/// installation: the pin must then name a managed version.
pub fn installed_version(resolved: NodeVersion) -> (version: Option<Version>)
    ensures
        version == match resolved {
            NodeVersion::NvmVersion(Some(installed)) => Some(installed),
            _ => None,
        },
{
    match resolved {
        NodeVersion::NvmVersion(Some(installed)) => Some(installed),
        _ => None,
    }
}

} // verus!
