//! The policy evaluator: walks the package list in order, skips packages
//! covered by embedded exceptions, and turns every non-allowed license
//! verdict into a violation record with an aggregate summary.

use vstd::prelude::*;

use crate::license::{normalize_license_name, normalize_spec, PackageLicense};
use crate::policy::{
    check_license_spec, find_match_spec, matches_exception, opt_str_view, LicensePolicy,
    ViolationLevel,
};
use crate::strutil::{trim, trim_seq};

verus! {

/// One reported policy violation.
#[derive(Debug, Clone)]
pub struct Violation {
    pub package_name: String,
    pub package_version: Option<String>,
    pub license: Option<String>,
    pub violation_level: ViolationLevel,
    pub matched_rule: Option<String>,
    pub message: String,
}

/// The mathematical image of a violation record.
pub struct ViolationModel {
    pub package_name: Seq<char>,
    pub package_version: Option<Seq<char>>,
    pub license: Option<Seq<char>>,
    pub violation_level: ViolationLevel,
    pub matched_rule: Option<Seq<char>>,
    pub message: Seq<char>,
}

impl View for Violation {
    type V = ViolationModel;

    open spec fn view(&self) -> ViolationModel {
        ViolationModel {
            package_name: self.package_name@,
            package_version: self.package_version.deep_view(),
            license: self.license.deep_view(),
            violation_level: self.violation_level,
            matched_rule: self.matched_rule.deep_view(),
            message: self.message@,
        }
    }
}

/// The image of a violation list.
pub open spec fn models_of(s: Seq<Violation>) -> Seq<ViolationModel> {
    s.map_values(|v: Violation| v@)
}

/// A violation list with totals: `errors` counts `Forbidden`, `warnings`
/// counts `ReviewRequired` plus `Unknown`.
#[derive(Debug)]
pub struct ViolationSummary {
    pub total: usize,
    pub errors: usize,
    pub warnings: usize,
    pub details: Vec<Violation>,
}

/// Count of recorded violations at a given level.
pub open spec fn count_vio(s: Seq<Violation>, l: ViolationLevel) -> int
    decreases s.len(),
{
    if s.len() == 0 {
        0
    } else {
        count_vio(s.drop_last(), l) + if s.last().violation_level == l {
            1int
        } else {
            0int
        }
    }
}

/// A count never exceeds the list length.
pub proof fn lemma_count_vio_le(s: Seq<Violation>, l: ViolationLevel)
    ensures
        0 <= count_vio(s, l) <= s.len(),
    decreases s.len(),
{
    if s.len() > 0 {
        lemma_count_vio_le(s.drop_last(), l);
    }
}

/// On a list whose entries all sit at one of the three non-allowed levels,
/// the three counts partition the list.
pub proof fn lemma_count_vio_partition(s: Seq<Violation>)
    requires
        forall|k: int|
            0 <= k < s.len() ==> (#[trigger] s[k]).violation_level != ViolationLevel::Allowed,
    ensures
        count_vio(s, ViolationLevel::Forbidden) + count_vio(s, ViolationLevel::ReviewRequired)
            + count_vio(s, ViolationLevel::Unknown) == s.len(),
    decreases s.len(),
{
    if s.len() > 0 {
        assert(s[s.len() - 1].violation_level != ViolationLevel::Allowed);
        lemma_count_vio_partition(s.drop_last());
    }
}

/// Counts at two distinct levels together never exceed the list length.
pub proof fn lemma_count_vio_disjoint(s: Seq<Violation>, l1: ViolationLevel, l2: ViolationLevel)
    requires
        l1 != l2,
    ensures
        count_vio(s, l1) + count_vio(s, l2) <= s.len(),
    decreases s.len(),
{
    if s.len() > 0 {
        lemma_count_vio_disjoint(s.drop_last(), l1, l2);
    }
}

/// The message attached to a violation at a given level for a canonical
/// license.
pub open spec fn message_for(level: ViolationLevel, lic: Seq<char>) -> Seq<char> {
    match level {
        ViolationLevel::Forbidden => "License '"@ + lic + "' is forbidden by policy"@,
        ViolationLevel::ReviewRequired => "License '"@ + lic + "' requires review"@,
        ViolationLevel::Unknown => "License '"@ + lic + "' is not in allowed list"@,
        ViolationLevel::Allowed => Seq::empty(),
    }
}

/// The matched-rule descriptor recorded for a violation: from whichever rule
/// set decided the level, and nothing for an unknown license.
pub open spec fn matched_rule_for(
    p: LicensePolicy,
    level: ViolationLevel,
    lic: Seq<char>,
) -> Option<Seq<char>> {
    match level {
        ViolationLevel::Forbidden => find_match_spec(p.forbidden_licenses, lic),
        ViolationLevel::ReviewRequired => find_match_spec(p.review_required, lic),
        _ => None,
    }
}

/// The package carries a non-empty license string.
pub open spec fn has_license(pkg: PackageLicense) -> bool {
    pkg.license matches Some(l) && trim_seq(l@).len() > 0
}

/// What the evaluator records for one package: nothing for an excepted
/// package or an allowed license, an `Unknown` entry for a missing license,
/// and otherwise the verdict with its descriptor and message.
pub open spec fn package_violation(p: LicensePolicy, pkg: PackageLicense) -> Option<
    ViolationModel,
> {
    if matches_exception(p, pkg.name@, pkg.version.deep_view()) {
        None
    } else if !has_license(pkg) {
        Some(
            ViolationModel {
                package_name: pkg.name@,
                package_version: pkg.version.deep_view(),
                license: None,
                violation_level: ViolationLevel::Unknown,
                matched_rule: None,
                message: "No license information found"@,
            },
        )
    } else {
        let lic = normalize_spec(pkg.license->Some_0@);
        let level = check_license_spec(p, lic);
        if level == ViolationLevel::Allowed {
            None
        } else {
            Some(
                ViolationModel {
                    package_name: pkg.name@,
                    package_version: pkg.version.deep_view(),
                    license: Some(lic),
                    violation_level: level,
                    matched_rule: matched_rule_for(p, level, lic),
                    message: message_for(level, lic),
                },
            )
        }
    }
}

/// The whole violation list for a package list, in package order.
pub open spec fn violations_model(p: LicensePolicy, packages: Seq<PackageLicense>) -> Seq<
    ViolationModel,
>
    decreases packages.len(),
{
    if packages.len() == 0 {
        Seq::empty()
    } else {
        violations_model(p, packages.drop_last()) + match package_violation(p, packages.last()) {
            Some(m) => seq![m],
            None => Seq::empty(),
        }
    }
}

/// Build the aggregate summary for a violation list: `errors` counts
/// `Forbidden` entries, `warnings` counts `ReviewRequired` and `Unknown`
/// ones, and the list itself is kept in order.
pub fn summarize(details: Vec<Violation>) -> (r: ViolationSummary)
    ensures
        r.details@ == details@,
        r.total == details@.len(),
        r.errors == count_vio(details@, ViolationLevel::Forbidden),
        r.warnings == count_vio(details@, ViolationLevel::ReviewRequired) + count_vio(
            details@,
            ViolationLevel::Unknown,
        ),
{
    let mut errors: usize = 0;
    let mut warnings: usize = 0;
    let mut i: usize = 0;
    while i < details.len()
        invariant
            0 <= i <= details@.len(),
            errors == count_vio(details@.take(i as int), ViolationLevel::Forbidden),
            warnings == count_vio(details@.take(i as int), ViolationLevel::ReviewRequired)
                + count_vio(details@.take(i as int), ViolationLevel::Unknown),
        decreases details@.len() - i,
    {
        proof {
            lemma_count_vio_le(details@.take(i as int), ViolationLevel::Forbidden);
            lemma_count_vio_le(details@.take(i as int), ViolationLevel::ReviewRequired);
            lemma_count_vio_le(details@.take(i as int), ViolationLevel::Unknown);
            lemma_count_vio_disjoint(
                details@.take(i as int),
                ViolationLevel::ReviewRequired,
                ViolationLevel::Unknown,
            );
            assert(details@.take(i + 1).drop_last() =~= details@.take(i as int));
            assert(details@.take(i + 1).last() == details@[i as int]);
        }
        let level = details[i].violation_level;
        if level == ViolationLevel::Forbidden {
            errors = errors + 1;
        } else if level == ViolationLevel::ReviewRequired || level == ViolationLevel::Unknown {
            warnings = warnings + 1;
        }
        i = i + 1;
    }
    proof {
        assert(details@.take(details@.len() as int) =~= details@);
    }
    let total = details.len();
    ViolationSummary { total, errors, warnings, details }
}

impl LicensePolicy {
    /// Detect violations over a package list, in package order: packages
    /// covered by an embedded exception are skipped entirely; a package
    /// without a license yields an `Unknown` entry; otherwise the raw
    /// license is normalized and classified, forbidden rules first, and
    /// every non-allowed verdict is recorded.
    pub fn detect_violations(&self, packages: &Vec<PackageLicense>) -> (r: ViolationSummary)
        ensures
            models_of(r.details@) == violations_model(*self, packages@),
            r.total == r.details@.len(),
            r.errors == count_vio(r.details@, ViolationLevel::Forbidden),
            r.warnings == count_vio(r.details@, ViolationLevel::ReviewRequired) + count_vio(
                r.details@,
                ViolationLevel::Unknown,
            ),
            r.total == r.errors + r.warnings,
    {
        let mut details: Vec<Violation> = Vec::new();
        let mut i: usize = 0;
        while i < packages.len()
            invariant
                0 <= i <= packages@.len(),
                models_of(details@) == violations_model(*self, packages@.take(i as int)),
            decreases packages@.len() - i,
        {
            proof {
                assert(packages@.take(i + 1).drop_last() =~= packages@.take(i as int));
                assert(packages@.take(i + 1).last() == packages@[i as int]);
            }
            let pkg = &packages[i];
            let ver: Option<&str> = match &pkg.version {
                Some(v) => Some(v.as_str()),
                None => None,
            };
            assert(opt_str_view(ver) == pkg.version.deep_view());
            if self.is_exception(pkg.name.as_str(), ver).is_some() {
                assert(package_violation(*self, packages@[i as int]) is None);
                proof {
                    assert(models_of(details@) =~= violations_model(
                        *self,
                        packages@.take(i + 1),
                    ));
                }
            } else {
                let raw: Option<&str> = match &pkg.license {
                    Some(l) => Some(l.as_str()),
                    None => None,
                };
                let usable = match raw {
                    Some(l) => trim(l).unicode_len() > 0,
                    None => false,
                };
                assert(usable == has_license(packages@[i as int]));
                if !usable {
                    let v = Violation {
                        package_name: pkg.name.clone(),
                        package_version: clone_opt_string(&pkg.version),
                        license: None,
                        violation_level: ViolationLevel::Unknown,
                        matched_rule: None,
                        message: String::from_str("No license information found"),
                    };
                    assert(package_violation(*self, packages@[i as int]) == Some(v@));
                    details.push(v);
                    proof {
                        assert(models_of(details@) =~= violations_model(
                            *self,
                            packages@.take(i + 1),
                        ));
                    }
                } else {
                    let lic = match raw {
                        Some(l) => normalize_license_name(l),
                        None => String::new(),
                    };
                    assert(lic@ == normalize_spec(packages@[i as int].license->Some_0@));
                    let level = self.check_license(lic.as_str());
                    if level == ViolationLevel::Allowed {
                        assert(package_violation(*self, packages@[i as int]) is None);
                        proof {
                            assert(models_of(details@) =~= violations_model(
                                *self,
                                packages@.take(i + 1),
                            ));
                        }
                    } else {
                        let matched_rule = if level == ViolationLevel::Forbidden {
                            self.forbidden_licenses.find_match(lic.as_str())
                        } else if level == ViolationLevel::ReviewRequired {
                            self.review_required.find_match(lic.as_str())
                        } else {
                            None
                        };
                        let mut message = String::from_str("License '");
                        message.append(lic.as_str());
                        if level == ViolationLevel::Forbidden {
                            message.append("' is forbidden by policy");
                        } else if level == ViolationLevel::ReviewRequired {
                            message.append("' requires review");
                        } else {
                            message.append("' is not in allowed list");
                        }
                        let v = Violation {
                            package_name: pkg.name.clone(),
                            package_version: clone_opt_string(&pkg.version),
                            license: Some(lic),
                            violation_level: level,
                            matched_rule,
                            message,
                        };
                        assert(package_violation(*self, packages@[i as int]) == Some(v@));
                        details.push(v);
                        proof {
                            assert(models_of(details@) =~= violations_model(
                                *self,
                                packages@.take(i + 1),
                            ));
                        }
                    }
                }
            }
            i = i + 1;
        }
        proof {
            assert(packages@.take(packages@.len() as int) =~= packages@);
            lemma_model_levels(*self, packages@);
            assert forall|k: int| 0 <= k < details@.len() implies (
            #[trigger] details@[k]).violation_level != ViolationLevel::Allowed by {
                assert(models_of(details@)[k] == details@[k]@);
                assert(models_of(details@)[k].violation_level != ViolationLevel::Allowed);
            }
            lemma_count_vio_partition(details@);
        }
        summarize(details)
    }
}

/// Copy an optional string, field for field.
fn clone_opt_string(v: &Option<String>) -> (r: Option<String>)
    ensures
        r == *v,
{
    match v {
        Some(s) => Some(s.clone()),
        None => None,
    }
}

/// Filtering a list extended by one element keeps the old selection and
/// appends the new element exactly when it satisfies the predicate.
pub proof fn lemma_filter_push<A>(s: Seq<A>, v: A, pred: spec_fn(A) -> bool)
    ensures
        s.push(v).filter(pred) == s.filter(pred) + (if pred(v) {
            seq![v]
        } else {
            Seq::empty()
        }),
{
    reveal(Seq::filter);
    assert(s.push(v).drop_last() =~= s);
    assert(s.push(v).last() == v);
    if pred(v) {
        assert(s.filter(pred).push(v) =~= s.filter(pred) + seq![v]);
    } else {
        assert(s.filter(pred) + Seq::<A>::empty() =~= s.filter(pred));
    }
}

/// Filtering a list none of whose elements satisfies the predicate selects
/// nothing.
pub proof fn lemma_filter_all_false<A>(s: Seq<A>, pred: spec_fn(A) -> bool)
    requires
        forall|i: int| 0 <= i < s.len() ==> !pred(s[i]),
    ensures
        s.filter(pred) == Seq::<A>::empty(),
    decreases s.len(),
{
    reveal(Seq::filter);
    if s.len() > 0 {
        lemma_filter_all_false(s.drop_last(), pred);
    }
}

/// No violation is recorded for an allowed license, so every recorded entry
/// sits at one of the three non-allowed levels and the totals add up.
pub proof fn lemma_model_levels(p: LicensePolicy, packages: Seq<PackageLicense>)
    ensures
        forall|k: int|
            0 <= k < violations_model(p, packages).len() ==> (#[trigger] violations_model(
                p,
                packages,
            )[k]).violation_level != ViolationLevel::Allowed,
    decreases packages.len(),
{
    if packages.len() > 0 {
        lemma_model_levels(p, packages.drop_last());
    }
}

/// A package covered by an embedded exception of the policy is never
/// reported: every recorded violation names a package identity that no
/// embedded exception covers.
pub proof fn lemma_excepted_never_reported(p: LicensePolicy, packages: Seq<PackageLicense>)
    ensures
        forall|k: int|
            0 <= k < violations_model(p, packages).len() ==> !matches_exception(
                p,
                (#[trigger] violations_model(p, packages)[k]).package_name,
                violations_model(p, packages)[k].package_version,
            ),
    decreases packages.len(),
{
    if packages.len() > 0 {
        lemma_excepted_never_reported(p, packages.drop_last());
    }
}

} // verus!
