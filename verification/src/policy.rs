//! Policy definitions and rule matching: exact and glob-pattern rule sets,
//! the four violation levels, and per-package embedded exceptions.

use vstd::prelude::*;

use crate::strutil::str_eq;

verus! {

/// Verdict for one canonical license under a policy.
#[derive(Debug, Clone, Copy, PartialEq, Eq, Structural)]
pub enum ViolationLevel {
    Allowed,
    ReviewRequired,
    Forbidden,
    Unknown,
}

/// A rule set: exact canonical license names plus glob patterns.
#[derive(Debug, Clone)]
pub struct LicenseRule {
    pub exact: Vec<String>,
    pub patterns: Vec<String>,
}

impl Default for LicenseRule {
    /// The empty rule set, which matches nothing.
    fn default() -> (r: Self)
        ensures
            r.exact@.len() == 0,
            r.patterns@.len() == 0,
    {
        LicenseRule { exact: Vec::new(), patterns: Vec::new() }
    }
}

/// A policy-scoped exception for one package, with no expiry.
#[derive(Debug, Clone)]
pub struct PackageException {
    pub name: String,
    pub version: Option<String>,
    pub reason: String,
}

/// A license policy: allow, forbid and review rule sets plus embedded
/// per-package exceptions.
#[derive(Debug, Clone)]
pub struct LicensePolicy {
    pub name: String,
    pub description: Option<String>,
    pub allowed_licenses: LicenseRule,
    pub forbidden_licenses: LicenseRule,
    pub review_required: LicenseRule,
    pub exceptions: Vec<PackageException>,
}

/// Whether `glob::Pattern::new` accepts `pattern`; a function of the pattern
/// text alone.
pub uninterp spec fn glob_valid(pattern: Seq<char>) -> bool;

/// Whether the compiled glob `pattern` matches `text` under default match
/// options; a function of the two strings alone.
pub uninterp spec fn glob_accepts(pattern: Seq<char>, text: Seq<char>) -> bool;

/// Relies on `glob::Pattern::new` and `glob::Pattern::matches`: compiling a
/// pattern succeeds or fails on the pattern text alone, and a compiled
/// pattern matches a string as a function of pattern and string alone; both
/// results are named, not spelled out. Returns `None` for an invalid pattern.
#[verifier::external_body]
fn glob_match(pattern: &str, text: &str) -> (r: Option<bool>)
    ensures
        (r is Some) == glob_valid(pattern@),
        r matches Some(b) ==> b == glob_accepts(pattern@, text@),
{
    match glob::Pattern::new(pattern) {
        Ok(p) => Some(p.matches(text)),
        Err(_) => None,
    }
}

/// The character view of an optional string slice.
pub open spec fn opt_str_view(v: Option<&str>) -> Option<Seq<char>> {
    match v {
        Some(s) => Some(s@),
        None => None,
    }
}

/// Some entry of `exact` equals `lic`.
pub open spec fn exact_matches(exact: Seq<String>, lic: Seq<char>) -> bool {
    exists|i: int| 0 <= i < exact.len() && (#[trigger] exact[i])@ == lic
}

/// Some entry of `patterns` is a valid glob and matches `lic`; a malformed
/// pattern never matches.
pub open spec fn pattern_matches(patterns: Seq<String>, lic: Seq<char>) -> bool {
    exists|i: int|
        0 <= i < patterns.len() && glob_valid((#[trigger] patterns[i])@) && glob_accepts(
            patterns[i]@,
            lic,
        )
}

/// The rule set matches `lic`, by exact name or by glob pattern.
pub open spec fn rule_matches(rule: LicenseRule, lic: Seq<char>) -> bool {
    exact_matches(rule.exact@, lic) || pattern_matches(rule.patterns@, lic)
}

/// Index of the first entry of `exact` equal to `lic`, from `i` on.
pub open spec fn first_exact_from(exact: Seq<String>, lic: Seq<char>, i: int) -> Option<int>
    decreases exact.len() - i,
{
    if i < 0 || i >= exact.len() {
        None
    } else if exact[i]@ == lic {
        Some(i)
    } else {
        first_exact_from(exact, lic, i + 1)
    }
}

/// Index of the first valid pattern of `patterns` matching `lic`, from `i` on.
pub open spec fn first_pattern_from(patterns: Seq<String>, lic: Seq<char>, i: int) -> Option<int>
    decreases patterns.len() - i,
{
    if i < 0 || i >= patterns.len() {
        None
    } else if glob_valid(patterns[i]@) && glob_accepts(patterns[i]@, lic) {
        Some(i)
    } else {
        first_pattern_from(patterns, lic, i + 1)
    }
}

/// The matched-rule descriptor `find_match` reports: the first exact match,
/// else the first matching pattern, else nothing.
pub open spec fn find_match_spec(rule: LicenseRule, lic: Seq<char>) -> Option<Seq<char>> {
    match first_exact_from(rule.exact@, lic, 0) {
        Some(i) => Some("exact: "@ + rule.exact@[i]@),
        None => match first_pattern_from(rule.patterns@, lic, 0) {
            Some(j) => Some("pattern: "@ + rule.patterns@[j]@),
            None => None,
        },
    }
}

impl LicenseRule {
    /// Whether this rule set matches a canonical license name.
    pub fn matches(&self, license: &str) -> (r: bool)
        ensures
            r == rule_matches(*self, license@),
    {
        let mut i: usize = 0;
        while i < self.exact.len()
            invariant
                0 <= i <= self.exact@.len(),
                forall|k: int| 0 <= k < i ==> (#[trigger] self.exact@[k])@ != license@,
            decreases self.exact@.len() - i,
        {
            if str_eq(self.exact[i].as_str(), license) {
                return true;
            }
            i = i + 1;
        }
        let mut j: usize = 0;
        while j < self.patterns.len()
            invariant
                0 <= j <= self.patterns@.len(),
                forall|k: int|
                    0 <= k < j ==> !(glob_valid((#[trigger] self.patterns@[k])@) && glob_accepts(
                        self.patterns@[k]@,
                        license@,
                    )),
            decreases self.patterns@.len() - j,
        {
            match glob_match(self.patterns[j].as_str(), license) {
                Some(true) => {
                    return true;
                },
                _ => {},
            }
            j = j + 1;
        }
        false
    }

    /// The descriptor of the rule that matched: `"exact: <name>"` or
    /// `"pattern: <pattern>"`, or `None` when nothing matches.
    pub fn find_match(&self, license: &str) -> (r: Option<String>)
        ensures
            r.deep_view() == find_match_spec(*self, license@),
    {
        let mut i: usize = 0;
        while i < self.exact.len()
            invariant
                0 <= i <= self.exact@.len(),
                first_exact_from(self.exact@, license@, 0) == first_exact_from(
                    self.exact@,
                    license@,
                    i as int,
                ),
            decreases self.exact@.len() - i,
        {
            if str_eq(self.exact[i].as_str(), license) {
                let mut s = String::from_str("exact: ");
                s.append(self.exact[i].as_str());
                return Some(s);
            }
            i = i + 1;
        }
        let mut j: usize = 0;
        while j < self.patterns.len()
            invariant
                0 <= j <= self.patterns@.len(),
                first_exact_from(self.exact@, license@, 0) is None,
                first_pattern_from(self.patterns@, license@, 0) == first_pattern_from(
                    self.patterns@,
                    license@,
                    j as int,
                ),
            decreases self.patterns@.len() - j,
        {
            match glob_match(self.patterns[j].as_str(), license) {
                Some(true) => {
                    let mut s = String::from_str("pattern: ");
                    s.append(self.patterns[j].as_str());
                    return Some(s);
                },
                _ => {},
            }
            j = j + 1;
        }
        None
    }
}

/// The verdict `check_license` assigns: forbidden rules first, then allowed,
/// then review-required, and otherwise unknown.
pub open spec fn check_license_spec(p: LicensePolicy, lic: Seq<char>) -> ViolationLevel {
    if rule_matches(p.forbidden_licenses, lic) {
        ViolationLevel::Forbidden
    } else if rule_matches(p.allowed_licenses, lic) {
        ViolationLevel::Allowed
    } else if rule_matches(p.review_required, lic) {
        ViolationLevel::ReviewRequired
    } else {
        ViolationLevel::Unknown
    }
}

/// An embedded exception covers a package: same name, and the exception's
/// version is absent, the wildcard `"*"`, or equal to the package's version.
pub open spec fn exception_covers(
    e: PackageException,
    name: Seq<char>,
    version: Option<Seq<char>>,
) -> bool {
    e.name@ == name && match e.version {
        None => true,
        Some(ev) => ev@ == "*"@ || match version {
            Some(pv) => ev@ == pv,
            None => false,
        },
    }
}

/// Some embedded exception of the policy covers the package.
pub open spec fn matches_exception(
    p: LicensePolicy,
    name: Seq<char>,
    version: Option<Seq<char>>,
) -> bool {
    exists|i: int|
        0 <= i < p.exceptions@.len() && exception_covers(#[trigger] p.exceptions@[i], name, version)
}

/// Index of the first embedded exception covering the package, from `i` on.
pub open spec fn first_exception_from(
    exceptions: Seq<PackageException>,
    name: Seq<char>,
    version: Option<Seq<char>>,
    i: int,
) -> Option<int>
    decreases exceptions.len() - i,
{
    if i < 0 || i >= exceptions.len() {
        None
    } else if exception_covers(exceptions[i], name, version) {
        Some(i)
    } else {
        first_exception_from(exceptions, name, version, i + 1)
    }
}

impl LicensePolicy {
    /// Classify a canonical license: forbidden wins over allowed, allowed
    /// over review-required; a license matching no rule set is unknown.
    pub fn check_license(&self, license: &str) -> (r: ViolationLevel)
        ensures
            r == check_license_spec(*self, license@),
    {
        if self.forbidden_licenses.matches(license) {
            return ViolationLevel::Forbidden;
        }
        if self.allowed_licenses.matches(license) {
            return ViolationLevel::Allowed;
        }
        if self.review_required.matches(license) {
            return ViolationLevel::ReviewRequired;
        }
        ViolationLevel::Unknown
    }

    /// The first embedded exception covering the package, if any.
    pub fn is_exception(&self, package_name: &str, package_version: Option<&str>) -> (r: Option<
        &PackageException,
    >)
        ensures
            match r {
                Some(e) => {
                    &&& first_exception_from(
                        self.exceptions@,
                        package_name@,
                        opt_str_view(package_version),
                        0,
                    ) matches Some(j)
                    &&& 0 <= j < self.exceptions@.len()
                    &&& *e == self.exceptions@[j]
                },
                None => first_exception_from(
                    self.exceptions@,
                    package_name@,
                    opt_str_view(package_version),
                    0,
                ) is None,
            },
            (r is Some) == matches_exception(*self, package_name@, opt_str_view(package_version)),
    {
        proof {
            lemma_first_exception_iff(
                self.exceptions@,
                package_name@,
                opt_str_view(package_version),
            );
        }
        let mut i: usize = 0;
        while i < self.exceptions.len()
            invariant
                0 <= i <= self.exceptions@.len(),
                first_exception_from(
                    self.exceptions@,
                    package_name@,
                    opt_str_view(package_version),
                    0,
                ) == first_exception_from(
                    self.exceptions@,
                    package_name@,
                    opt_str_view(package_version),
                    i as int,
                ),
            decreases self.exceptions@.len() - i,
        {
            let e = &self.exceptions[i];
            let name_ok = str_eq(e.name.as_str(), package_name);
            let version_ok = match &e.version {
                None => true,
                Some(ev) => str_eq(ev.as_str(), "*") || match package_version {
                    Some(pv) => str_eq(ev.as_str(), pv),
                    None => false,
                },
            };
            if name_ok && version_ok {
                assert(exception_covers(
                    self.exceptions@[i as int],
                    package_name@,
                    opt_str_view(package_version),
                ));
                return Some(e);
            }
            assert(!exception_covers(
                self.exceptions@[i as int],
                package_name@,
                opt_str_view(package_version),
            ));
            i = i + 1;
        }
        None
    }
}

/// A covering exception exists exactly when the first-match search finds one.
proof fn lemma_first_exception_iff(
    exceptions: Seq<PackageException>,
    name: Seq<char>,
    version: Option<Seq<char>>,
)
    ensures
        (first_exception_from(exceptions, name, version, 0) is Some) == exists|i: int|
            0 <= i < exceptions.len() && exception_covers(#[trigger] exceptions[i], name, version),
{
    lemma_first_exception_iff_from(exceptions, name, version, 0);
}

proof fn lemma_first_exception_iff_from(
    exceptions: Seq<PackageException>,
    name: Seq<char>,
    version: Option<Seq<char>>,
    i: int,
)
    requires
        0 <= i <= exceptions.len(),
    ensures
        (first_exception_from(exceptions, name, version, i) is Some) == exists|k: int|
            i <= k < exceptions.len() && exception_covers(#[trigger] exceptions[k], name, version),
    decreases exceptions.len() - i,
{
    if i < exceptions.len() {
        lemma_first_exception_iff_from(exceptions, name, version, i + 1);
    }
}

/// Forbidden precedence: when a license matches both the forbidden and the
/// allowed rule sets of a policy, its verdict is `Forbidden`.
pub proof fn lemma_forbidden_precedence(p: LicensePolicy, lic: Seq<char>)
    requires
        rule_matches(p.forbidden_licenses, lic),
        rule_matches(p.allowed_licenses, lic),
    ensures
        check_license_spec(p, lic) == ViolationLevel::Forbidden,
{
}

} // verus!
