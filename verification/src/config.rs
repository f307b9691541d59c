//! The tool's configuration values. Reading them from `pyproject.toml`
//! happens outside the library; the library only defines the shape and the
//! defaults.

use vstd::prelude::*;

use crate::policy::LicensePolicy;

verus! {

/// Configuration for one invocation: output format, whether to include
/// packages without license information, whether to check and fail on
/// violations, and the embedded policy if one is configured.
#[derive(Debug, Clone)]
pub struct Config {
    pub format: Option<String>,
    pub include_unknown: Option<bool>,
    pub check_violations: Option<bool>,
    pub fail_on_violations: Option<bool>,
    pub policy: Option<LicensePolicy>,
}

impl Default for Config {
    /// The defaults: table output, unknown packages excluded, no violation
    /// checking, and no policy.
    fn default() -> (r: Self)
        ensures
            r.format matches Some(f) && f@ == "table"@,
            r.include_unknown == Some(false),
            r.check_violations == Some(false),
            r.fail_on_violations == Some(false),
            r.policy is None,
    {
        Config {
            format: Some(String::from_str("table")),
            include_unknown: Some(false),
            check_violations: Some(false),
            fail_on_violations: Some(false),
            policy: None,
        }
    }
}

} // verus!
