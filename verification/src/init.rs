//! The preset policies the `init` command offers. Writing the chosen preset
//! into `pyproject.toml` happens outside the library; the library owns the
//! preset texts themselves.

use vstd::prelude::*;

verus! {

/// The three preset strictness levels.
#[derive(Debug, Clone, Copy, PartialEq, Eq, Structural)]
pub enum InitPreset {
    Green,
    Yellow,
    Red,
}

/// The green preset: permissive licenses only, copyleft forbidden.
pub const GREEN_PRESET: &'static str = "[tool.py-license-auditor]\ncheck_violations = true\nfail_on_violations = true\n\n[tool.py-license-auditor.policy]\nname = \"Green License Policy\"\ndescription = \"Permissive licenses only; copyleft is forbidden\"\n\n[tool.py-license-auditor.policy.allowed_licenses]\nexact = [\"MIT\", \"Apache-2.0\", \"BSD-3-Clause\", \"BSD-2-Clause\", \"ISC\", \"Unlicense\"]\npatterns = [\"BSD-*\"]\n\n[tool.py-license-auditor.policy.forbidden_licenses]\nexact = [\"GPL-3.0\", \"GPL-2.0\", \"AGPL-3.0\"]\npatterns = [\"GPL-*\", \"AGPL-*\"]\n\n[tool.py-license-auditor.policy.review_required]\nexact = [\"MPL-2.0\", \"LGPL-2.1\", \"LGPL-3.0\"]\npatterns = []\n";

/// The yellow preset: permissive licenses allowed, copyleft reviewed.
pub const YELLOW_PRESET: &'static str = "[tool.py-license-auditor]\ncheck_violations = true\nfail_on_violations = false\n\n[tool.py-license-auditor.policy]\nname = \"Yellow License Policy\"\ndescription = \"Permissive licenses allowed; copyleft needs review\"\n\n[tool.py-license-auditor.policy.allowed_licenses]\nexact = [\"MIT\", \"Apache-2.0\", \"BSD-3-Clause\", \"BSD-2-Clause\", \"ISC\", \"Unlicense\"]\npatterns = [\"BSD-*\"]\n\n[tool.py-license-auditor.policy.forbidden_licenses]\nexact = [\"AGPL-3.0\"]\npatterns = [\"AGPL-*\"]\n\n[tool.py-license-auditor.policy.review_required]\nexact = [\"GPL-3.0\", \"GPL-2.0\", \"LGPL-2.1\", \"LGPL-3.0\", \"MPL-2.0\"]\npatterns = [\"GPL-*\"]\n";

/// The red preset: only a fixed allow list, everything copyleft forbidden.
pub const RED_PRESET: &'static str = "[tool.py-license-auditor]\ncheck_violations = true\nfail_on_violations = true\n\n[tool.py-license-auditor.policy]\nname = \"Red License Policy\"\ndescription = \"Only explicitly allowed licenses pass\"\n\n[tool.py-license-auditor.policy.allowed_licenses]\nexact = [\"MIT\", \"Apache-2.0\"]\npatterns = []\n\n[tool.py-license-auditor.policy.forbidden_licenses]\nexact = [\"GPL-3.0\", \"GPL-2.0\", \"AGPL-3.0\", \"LGPL-2.1\", \"LGPL-3.0\", \"MPL-2.0\"]\npatterns = [\"GPL-*\", \"AGPL-*\", \"LGPL-*\"]\n\n[tool.py-license-auditor.policy.review_required]\nexact = []\npatterns = []\n";

/// The configuration text a preset stands for.
pub fn get_preset_config(preset: InitPreset) -> (r: &'static str)
    ensures
        preset is Green ==> r@ == GREEN_PRESET@,
        preset is Yellow ==> r@ == YELLOW_PRESET@,
        preset is Red ==> r@ == RED_PRESET@,
{
    match preset {
        InitPreset::Green => GREEN_PRESET,
        InitPreset::Yellow => YELLOW_PRESET,
        InitPreset::Red => RED_PRESET,
    }
}

} // verus!
