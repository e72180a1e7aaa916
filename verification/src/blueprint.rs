use crate::text::same_text;
use vstd::prelude::*;
use vstd::string::StringExecFns;

verus! {

/// The one blueprint version that this runtime reads.
pub const CELERITY_BLUEPRINT_V2023_04_20: &'static str = "2023-04-20";

/// Whether a blueprint of the given version can be read.
pub open spec fn is_supported_version(version: Seq<char>) -> bool {
    version == "2023-04-20"@
}

/// A blueprint version that this runtime does not read.
#[derive(Debug)]
pub struct UnsupportedVersion {
    /// The version that the document names.
    pub found: String,
    /// The version that it would have to name.
    pub expected: String,
}

impl UnsupportedVersion {
    /// Renders the error for a user.
    pub fn to_string(&self) -> (out: String)
        ensures
            out@ == "expected version "@ + self.expected@ + ", found "@ + self.found@,
    {
        let mut out = String::from_str("expected version ");
        out.append(self.expected.as_str());
        out.append(", found ");
        out.append(self.found.as_str());
        out
    }
}

/// Checks the version that a blueprint names, and hands it back if this runtime reads it.
pub fn check_version(version: &str) -> (res: Result<String, UnsupportedVersion>)
    ensures
        match res {
            Ok(accepted) => is_supported_version(version@) && accepted@ == version@,
            Err(e) => !is_supported_version(version@) && e.found@ == version@ && e.expected@
                == "2023-04-20"@,
        },
{
    if same_text(version, CELERITY_BLUEPRINT_V2023_04_20) {
        Ok(String::from_str(version))
    } else {
        Err(
            UnsupportedVersion {
                found: String::from_str(version),
                expected: String::from_str(CELERITY_BLUEPRINT_V2023_04_20),
            },
        )
    }
}

} // verus!
