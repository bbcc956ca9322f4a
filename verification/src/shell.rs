//! Identity of the shell application itself.

use vstd::prelude::*;

verus! {

/// Descriptive record about the host application, shown to the user on demand.
pub struct AppInfo {
    pub name: String,
    pub version: String,
    pub description: String,
}

/// The fixed identity record of this application.
pub fn app_info() -> (info: AppInfo)
    ensures
        info.name@ == "KKAPE Gearbox"@,
        info.version@ == "0.1.0"@,
        info.description@ == "A modern tool collection platform"@,
{
    AppInfo {
        name: String::from_str("KKAPE Gearbox"),
        version: String::from_str("0.1.0"),
        description: String::from_str("A modern tool collection platform"),
    }
}

} // verus!
