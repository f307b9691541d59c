//! License names: the package/license record handed in by the metadata
//! collaborators, and the normalizer that maps free-form license strings to
//! canonical SPDX-like identifiers.

use vstd::prelude::*;

use crate::strutil::{
    char_free_from, contains_lower, contains_seq, lemma_not_contains_absent,
    lemma_not_contains_longer, lemma_seq_eq, lemma_trim_fixed, lemma_trim_idempotent, lower_seq,
    seq_eq_from, starts_with_seq, str_eq, str_eq_lower, str_starts_with, trim, trim_seq,
};

verus! {

/// License facts extracted for one installed package.
#[derive(Debug, Clone)]
pub struct PackageLicense {
    pub name: String,
    pub version: Option<String>,
    pub license: Option<String>,
    pub license_classifiers: Vec<String>,
    pub metadata_source: String,
}

/// Keys of the exact-match table that map to `"MIT"`.
pub open spec fn is_mit_key(t: Seq<char>) -> bool {
    t == "MIT"@ || t == "MIT License"@ || t == "MIT license"@ || t == "Expat license"@
}

/// Keys of the exact-match table that map to `"Apache-2.0"`.
pub open spec fn is_apache_key(t: Seq<char>) -> bool {
    t == "Apache-2.0"@ || t == "Apache License"@ || t == "Apache Software License"@
}

/// Keys of the exact-match table that map to `"BSD-3-Clause"`.
pub open spec fn is_bsd3_key(t: Seq<char>) -> bool {
    t == "BSD-3-Clause"@ || t == "BSD 3-Clause"@ || t == "BSD 3-Clause License"@
}

/// Keys of the exact-match table that map to `"BSD-2-Clause"`.
pub open spec fn is_bsd2_key(t: Seq<char>) -> bool {
    t == "BSD-2-Clause"@ || t == "BSD 2-Clause"@ || t == "BSD 2-Clause License"@
}

/// Keys of the exact-match table that map to `"MPL-2.0"`.
pub open spec fn is_mpl_key(t: Seq<char>) -> bool {
    t == "MPL-2.0"@ || t == "Mozilla Public License 2.0"@
}

/// Keys of the exact-match table that map to `"ISC"`.
pub open spec fn is_isc_key(t: Seq<char>) -> bool {
    t == "ISC"@ || t == "ISC License"@
}

/// Keys of the exact-match table that map to `"GPL-2.0"`.
pub open spec fn is_gpl2_key(t: Seq<char>) -> bool {
    t == "GPL-2.0"@ || t == "GPLv2"@
}

/// Keys of the exact-match table that map to `"GPL-3.0"`.
pub open spec fn is_gpl3_key(t: Seq<char>) -> bool {
    t == "GPL-3.0"@ || t == "GPLv3"@
}

/// Keys of the exact-match table that map to `"LGPL-2.1"`.
pub open spec fn is_lgpl21_key(t: Seq<char>) -> bool {
    t == "LGPL-2.1"@ || t == "LGPLv2.1"@
}

/// Keys of the exact-match table that map to `"LGPL-3.0"`.
pub open spec fn is_lgpl30_key(t: Seq<char>) -> bool {
    t == "LGPL-3.0"@ || t == "LGPLv3"@
}

/// The exact-match shortcut table, applied to the trimmed input.
pub open spec fn exact_table(t: Seq<char>) -> Option<Seq<char>> {
    if is_mit_key(t) {
        Some("MIT"@)
    } else if is_apache_key(t) {
        Some("Apache-2.0"@)
    } else if is_bsd3_key(t) {
        Some("BSD-3-Clause"@)
    } else if is_bsd2_key(t) {
        Some("BSD-2-Clause"@)
    } else if is_mpl_key(t) {
        Some("MPL-2.0"@)
    } else if is_isc_key(t) {
        Some("ISC"@)
    } else if is_gpl2_key(t) {
        Some("GPL-2.0"@)
    } else if is_gpl3_key(t) {
        Some("GPL-3.0"@)
    } else if is_lgpl21_key(t) {
        Some("LGPL-2.1"@)
    } else if is_lgpl30_key(t) {
        Some("LGPL-3.0"@)
    } else {
        None
    }
}

/// The case-insensitive substring heuristics, tried in fixed priority order
/// on the lowercased trimmed input `lo`; `t` is the trimmed input itself,
/// returned unchanged when nothing matches.
pub open spec fn heuristic_result(lo: Seq<char>, t: Seq<char>) -> Seq<char> {
    if contains_seq(lo, "mit"@) {
        "MIT"@
    } else if contains_seq(lo, "apache"@) && (contains_seq(lo, "2.0"@) || contains_seq(
        lo,
        "software license"@,
    )) {
        "Apache-2.0"@
    } else if contains_seq(lo, "bsd"@) && contains_seq(lo, "3"@) {
        "BSD-3-Clause"@
    } else if contains_seq(lo, "bsd"@) && contains_seq(lo, "2"@) {
        "BSD-2-Clause"@
    } else if contains_seq(lo, "bsd license"@) {
        "BSD-3-Clause"@
    } else if contains_seq(lo, "gpl"@) && contains_seq(lo, "3"@) {
        "GPL-3.0"@
    } else if contains_seq(lo, "gpl"@) && contains_seq(lo, "2"@) {
        "GPL-2.0"@
    } else if contains_seq(lo, "lgpl"@) && contains_seq(lo, "3"@) {
        "LGPL-3.0"@
    } else if contains_seq(lo, "lgpl"@) && contains_seq(lo, "2"@) {
        "LGPL-2.1"@
    } else if contains_seq(lo, "mozilla public license"@) || lo == "mpl-2.0"@ {
        "MPL-2.0"@
    } else if lo == "isc license"@ || lo == "isc"@ {
        "ISC"@
    } else if contains_seq(lo, "unlicense"@) {
        "Unlicense"@
    } else {
        t
    }
}

/// The trimmed input is malformed: empty, shorter than three characters,
/// a copyright statement, or a stray `=` line.
pub open spec fn is_malformed(t: Seq<char>) -> bool {
    t.len() < 3 || starts_with_seq(t, "Copyright"@) || starts_with_seq(t, "="@)
}

/// What `normalize_license_name` returns for a raw license string.
pub open spec fn normalize_spec(raw: Seq<char>) -> Seq<char> {
    let t = trim_seq(raw);
    if is_malformed(t) {
        "Unknown"@
    } else {
        match exact_table(t) {
            Some(c) => c,
            None => heuristic_result(lower_seq(t), t),
        }
    }
}

/// Map a free-form license string to a canonical SPDX-like identifier:
/// malformed strings become `"Unknown"`, common spellings go through an
/// exact-match table, then case-insensitive substring heuristics, and a
/// string nothing recognizes is returned trimmed but otherwise unchanged.
pub fn normalize_license_name(license: &str) -> (r: String)
    ensures
        r@ == normalize_spec(license@),
{
    let t = trim(license);
    if t.unicode_len() < 3 || str_starts_with(t, "Copyright") || str_starts_with(t, "=") {
        return String::from_str("Unknown");
    }
    if str_eq(t, "MIT") || str_eq(t, "MIT License") || str_eq(t, "MIT license") || str_eq(
        t,
        "Expat license",
    ) {
        return String::from_str("MIT");
    }
    if str_eq(t, "Apache-2.0") || str_eq(t, "Apache License") || str_eq(
        t,
        "Apache Software License",
    ) {
        return String::from_str("Apache-2.0");
    }
    if str_eq(t, "BSD-3-Clause") || str_eq(t, "BSD 3-Clause") || str_eq(t, "BSD 3-Clause License") {
        return String::from_str("BSD-3-Clause");
    }
    if str_eq(t, "BSD-2-Clause") || str_eq(t, "BSD 2-Clause") || str_eq(t, "BSD 2-Clause License") {
        return String::from_str("BSD-2-Clause");
    }
    if str_eq(t, "MPL-2.0") || str_eq(t, "Mozilla Public License 2.0") {
        return String::from_str("MPL-2.0");
    }
    if str_eq(t, "ISC") || str_eq(t, "ISC License") {
        return String::from_str("ISC");
    }
    if str_eq(t, "GPL-2.0") || str_eq(t, "GPLv2") {
        return String::from_str("GPL-2.0");
    }
    if str_eq(t, "GPL-3.0") || str_eq(t, "GPLv3") {
        return String::from_str("GPL-3.0");
    }
    if str_eq(t, "LGPL-2.1") || str_eq(t, "LGPLv2.1") {
        return String::from_str("LGPL-2.1");
    }
    if str_eq(t, "LGPL-3.0") || str_eq(t, "LGPLv3") {
        return String::from_str("LGPL-3.0");
    }
    if contains_lower(t, "mit") {
        return String::from_str("MIT");
    }
    if contains_lower(t, "apache") && (contains_lower(t, "2.0") || contains_lower(
        t,
        "software license",
    )) {
        return String::from_str("Apache-2.0");
    }
    if contains_lower(t, "bsd") && contains_lower(t, "3") {
        return String::from_str("BSD-3-Clause");
    }
    if contains_lower(t, "bsd") && contains_lower(t, "2") {
        return String::from_str("BSD-2-Clause");
    }
    if contains_lower(t, "bsd license") {
        return String::from_str("BSD-3-Clause");
    }
    if contains_lower(t, "gpl") && contains_lower(t, "3") {
        return String::from_str("GPL-3.0");
    }
    if contains_lower(t, "gpl") && contains_lower(t, "2") {
        return String::from_str("GPL-2.0");
    }
    if contains_lower(t, "lgpl") && contains_lower(t, "3") {
        return String::from_str("LGPL-3.0");
    }
    if contains_lower(t, "lgpl") && contains_lower(t, "2") {
        return String::from_str("LGPL-2.1");
    }
    if contains_lower(t, "mozilla public license") || str_eq_lower(t, "mpl-2.0") {
        return String::from_str("MPL-2.0");
    }
    if str_eq_lower(t, "isc license") || str_eq_lower(t, "isc") {
        return String::from_str("ISC");
    }
    if contains_lower(t, "unlicense") {
        return String::from_str("Unlicense");
    }
    String::from_str(t)
}

/// Position of the first `" :: "` separator at or after `i`.
pub open spec fn find_sep_spec(s: Seq<char>, i: int) -> Option<int>
    decreases s.len() - i,
{
    if i < 0 || i + 4 > s.len() {
        None
    } else if s.subrange(i, i + 4) == " :: "@ {
        Some(i)
    } else {
        find_sep_spec(s, i + 1)
    }
}

/// The raw license name a trove classifier yields: for
/// `"License :: OSI Approved :: <name>"` the third `" :: "`-separated
/// segment, for a two-segment classifier the second, and nothing for other
/// classifiers.
pub open spec fn classifier_license_spec(s: Seq<char>) -> Option<Seq<char>> {
    if !starts_with_seq(s, "License :: "@) {
        None
    } else {
        match find_sep_spec(s, 0) {
            None => None,
            Some(p1) => match find_sep_spec(s, p1 + 4) {
                None => Some(s.subrange(p1 + 4, s.len() as int)),
                Some(p2) => match find_sep_spec(s, p2 + 4) {
                    None => Some(s.subrange(p2 + 4, s.len() as int)),
                    Some(p3) => Some(s.subrange(p2 + 4, p3)),
                },
            },
        }
    }
}

/// Find the first `" :: "` separator at or after `from`.
fn find_sep(s: &str, from: usize) -> (r: Option<usize>)
    requires
        from <= s@.len(),
    ensures
        match r {
            Some(p) => {
                &&& find_sep_spec(s@, from as int) == Some(p as int)
                &&& from <= p
                &&& p + 4 <= s@.len()
            },
            None => find_sep_spec(s@, from as int) is None,
        },
{
    proof {
        reveal_strlit(" :: ");
    }
    let n = s.unicode_len();
    if n < 4 || from > n - 4 {
        return None;
    }
    let mut i: usize = from;
    while i <= n - 4
        invariant
            from <= i,
            4 <= n,
            i <= n - 3,
            n == s@.len(),
            find_sep_spec(s@, from as int) == find_sep_spec(s@, i as int),
            " :: "@.len() == 4,
        decreases n - i,
    {
        let w0 = s.get_char(i);
        let w1 = s.get_char(i + 1);
        let w2 = s.get_char(i + 2);
        let w3 = s.get_char(i + 3);
        if w0 == ' ' && w1 == ':' && w2 == ':' && w3 == ' ' {
            proof {
                reveal_strlit(" :: ");
                assert(s@.subrange(i as int, i + 4) =~= " :: "@);
            }
            return Some(i);
        }
        proof {
            reveal_strlit(" :: ");
            if s@.subrange(i as int, i + 4) == " :: "@ {
                assert(s@.subrange(i as int, i + 4)[0] == s@[i as int]);
                assert(s@.subrange(i as int, i + 4)[1] == s@[i + 1]);
                assert(s@.subrange(i as int, i + 4)[2] == s@[i + 2]);
                assert(s@.subrange(i as int, i + 4)[3] == s@[i + 3]);
            }
        }
        i = i + 1;
    }
    None
}

/// Extract the raw license name from a trove classifier such as
/// `"License :: OSI Approved :: MIT License"`.
pub fn extract_license_from_classifier(classifier: &str) -> (r: Option<String>)
    ensures
        r.deep_view() == classifier_license_spec(classifier@),
{
    if !str_starts_with(classifier, "License :: ") {
        return None;
    }
    let n = classifier.unicode_len();
    match find_sep(classifier, 0) {
        None => None,
        Some(p1) => match find_sep(classifier, p1 + 4) {
            None => Some(String::from_str(classifier.substring_char(p1 + 4, n))),
            Some(p2) => match find_sep(classifier, p2 + 4) {
                None => Some(String::from_str(classifier.substring_char(p2 + 4, n))),
                Some(p3) => Some(String::from_str(classifier.substring_char(p2 + 4, p3))),
            },
        },
    }
}

/// The raw license name of the first classifier that yields one, from
/// position `i` on.
pub open spec fn first_classifier_license(cls: Seq<String>, i: int) -> Option<Seq<char>>
    decreases cls.len() - i,
{
    if i < 0 || i >= cls.len() {
        None
    } else {
        match classifier_license_spec(cls[i]@) {
            Some(name) => Some(name),
            None => first_classifier_license(cls, i + 1),
        }
    }
}

/// The raw license text that stands for a package: its license field when
/// present, else the first classifier-derived license name.
pub open spec fn effective_license_spec(pkg: PackageLicense) -> Option<Seq<char>> {
    match pkg.license {
        Some(l) => Some(l@),
        None => first_classifier_license(pkg.license_classifiers@, 0),
    }
}

/// The license that effectively stands for a package, if any.
pub fn get_effective_license(package: &PackageLicense) -> (r: Option<String>)
    ensures
        r.deep_view() == effective_license_spec(*package),
{
    match &package.license {
        Some(l) => Some(l.clone()),
        None => {
            let mut i: usize = 0;
            while i < package.license_classifiers.len()
                invariant
                    0 <= i <= package.license_classifiers@.len(),
                    package.license is None,
                    first_classifier_license(package.license_classifiers@, 0)
                        == first_classifier_license(package.license_classifiers@, i as int),
                decreases package.license_classifiers@.len() - i,
            {
                match extract_license_from_classifier(package.license_classifiers[i].as_str()) {
                    Some(name) => {
                        proof {
                            assert(package.license is None);
                            assert(first_classifier_license(
                                package.license_classifiers@,
                                i as int,
                            ) == Some(name@));
                            assert(first_classifier_license(
                                package.license_classifiers@,
                                0,
                            ) == Some(name@));
                            assert(effective_license_spec(*package) == Some(name@));
                        }
                        return Some(name);
                    },
                    None => {},
                }
                i = i + 1;
            }
            None
        },
    }
}

/// The license reads as one of the widely known OSI-approved identifiers,
/// by case-insensitive substring match.
pub open spec fn is_osi_spec(lic: Seq<char>) -> bool {
    let lo = lower_seq(lic);
    contains_seq(lo, "mit"@) || contains_seq(lo, "apache-2.0"@) || contains_seq(
        lo,
        "apache license"@,
    ) || contains_seq(lo, "bsd"@) || contains_seq(lo, "bsd-2-clause"@) || contains_seq(
        lo,
        "bsd-3-clause"@,
    ) || contains_seq(lo, "gpl-2.0"@) || contains_seq(lo, "gpl-3.0"@) || contains_seq(
        lo,
        "lgpl-2.1"@,
    ) || contains_seq(lo, "lgpl-3.0"@) || contains_seq(lo, "mpl-2.0"@) || contains_seq(
        lo,
        "isc"@,
    ) || contains_seq(lo, "unlicense"@) || contains_seq(lo, "cc0-1.0"@) || contains_seq(
        lo,
        "agpl-3.0"@,
    ) || contains_seq(lo, "epl-2.0"@) || contains_seq(lo, "apache software license"@)
}

/// Whether a license name reads as a well-known OSI-approved license.
pub fn is_osi_approved_license(license: &str) -> (r: bool)
    ensures
        r == is_osi_spec(license@),
{
    contains_lower(license, "mit") || contains_lower(license, "apache-2.0") || contains_lower(
        license,
        "apache license",
    ) || contains_lower(license, "bsd") || contains_lower(license, "bsd-2-clause")
        || contains_lower(license, "bsd-3-clause") || contains_lower(license, "gpl-2.0")
        || contains_lower(license, "gpl-3.0") || contains_lower(license, "lgpl-2.1")
        || contains_lower(license, "lgpl-3.0") || contains_lower(license, "mpl-2.0")
        || contains_lower(license, "isc") || contains_lower(license, "unlicense")
        || contains_lower(license, "cc0-1.0") || contains_lower(license, "agpl-3.0")
        || contains_lower(license, "epl-2.0") || contains_lower(license, "apache software license")
}

/// A string of three or more characters whose first character is neither
/// `'C'` nor `'='` is not malformed.
proof fn lemma_not_malformed_by_head(t: Seq<char>)
    requires
        t.len() >= 3,
        t[0] != 'C',
        t[0] != '=',
    ensures
        !is_malformed(t),
{
    reveal_strlit("Copyright");
    reveal_strlit("=");
    if starts_with_seq(t, "Copyright"@) {
        assert(t.subrange(0, 9)[0] == t[0]);
        assert("Copyright"@[0] == 'C');
    }
    if starts_with_seq(t, "="@) {
        assert(t.subrange(0, 1)[0] == t[0]);
        assert("="@[0] == '=');
    }
}

/// The canonical identifiers the exact-match table produces are fixed
/// points of normalization.
#[verifier::rlimit(100)]
proof fn lemma_table_outputs_fixed()
    ensures
        normalize_spec("MIT"@) == "MIT"@,
        normalize_spec("Apache-2.0"@) == "Apache-2.0"@,
        normalize_spec("BSD-3-Clause"@) == "BSD-3-Clause"@,
        normalize_spec("BSD-2-Clause"@) == "BSD-2-Clause"@,
        normalize_spec("MPL-2.0"@) == "MPL-2.0"@,
        normalize_spec("ISC"@) == "ISC"@,
        normalize_spec("GPL-2.0"@) == "GPL-2.0"@,
        normalize_spec("GPL-3.0"@) == "GPL-3.0"@,
        normalize_spec("LGPL-2.1"@) == "LGPL-2.1"@,
        normalize_spec("LGPL-3.0"@) == "LGPL-3.0"@,
{
    reveal_strlit("MIT");
    reveal_strlit("MIT License");
    reveal_strlit("MIT license");
    reveal_strlit("Expat license");
    reveal_strlit("Apache-2.0");
    reveal_strlit("Apache License");
    reveal_strlit("Apache Software License");
    reveal_strlit("BSD-3-Clause");
    reveal_strlit("BSD 3-Clause");
    reveal_strlit("BSD 3-Clause License");
    reveal_strlit("BSD-2-Clause");
    reveal_strlit("BSD 2-Clause");
    reveal_strlit("BSD 2-Clause License");
    reveal_strlit("MPL-2.0");
    reveal_strlit("Mozilla Public License 2.0");
    reveal_strlit("ISC");
    reveal_strlit("ISC License");
    reveal_strlit("GPL-2.0");
    reveal_strlit("GPLv2");
    reveal_strlit("GPL-3.0");
    reveal_strlit("GPLv3");
    reveal_strlit("LGPL-2.1");
    reveal_strlit("LGPLv2.1");
    reveal_strlit("LGPL-3.0");
    reveal_strlit("LGPLv3");
    lemma_trim_fixed("MIT"@);
    lemma_trim_fixed("Apache-2.0"@);
    lemma_trim_fixed("BSD-3-Clause"@);
    lemma_trim_fixed("BSD-2-Clause"@);
    lemma_trim_fixed("MPL-2.0"@);
    lemma_trim_fixed("ISC"@);
    lemma_trim_fixed("GPL-2.0"@);
    lemma_trim_fixed("GPL-3.0"@);
    lemma_trim_fixed("LGPL-2.1"@);
    lemma_trim_fixed("LGPL-3.0"@);
    lemma_not_malformed_by_head("MIT"@);
    lemma_not_malformed_by_head("Apache-2.0"@);
    lemma_not_malformed_by_head("BSD-3-Clause"@);
    lemma_not_malformed_by_head("BSD-2-Clause"@);
    lemma_not_malformed_by_head("MPL-2.0"@);
    lemma_not_malformed_by_head("ISC"@);
    lemma_not_malformed_by_head("GPL-2.0"@);
    lemma_not_malformed_by_head("GPL-3.0"@);
    lemma_not_malformed_by_head("LGPL-2.1"@);
    lemma_not_malformed_by_head("LGPL-3.0"@);
    assert("ISC"@[0] == 'I');
    assert("MIT"@[0] == 'M');
    assert("GPL-2.0"@[0] == 'G');
    assert("GPL-3.0"@[0] == 'G');
    assert("MPL-2.0"@[0] == 'M');
    assert("GPL-3.0"@[4] == '3');
    assert("GPL-2.0"@[4] == '2');
    assert("LGPL-3.0"@[5] == '3');
    assert("LGPL-2.1"@[5] == '2');
    assert("LGPL-3.0"@[4] == '-');
    assert("LGPLv2.1"@[4] == 'v');
    assert("BSD-2-Clause"@[4] == '2');
    assert("BSD-3-Clause"@[4] == '3');
    assert("BSD-2-Clause"@[3] == '-');
    assert("BSD 3-Clause"@[3] == ' ');
}

/// `"Unknown"`, the fallback for malformed inputs, is a fixed point of
/// normalization.
#[verifier::rlimit(100)]
proof fn lemma_unknown_fixed()
    ensures
        normalize_spec("Unknown"@) == "Unknown"@,
{
    reveal_strlit("MIT");
    reveal_strlit("MIT License");
    reveal_strlit("MIT license");
    reveal_strlit("Expat license");
    reveal_strlit("Apache-2.0");
    reveal_strlit("Apache License");
    reveal_strlit("Apache Software License");
    reveal_strlit("BSD-3-Clause");
    reveal_strlit("BSD 3-Clause");
    reveal_strlit("BSD 3-Clause License");
    reveal_strlit("BSD-2-Clause");
    reveal_strlit("BSD 2-Clause");
    reveal_strlit("BSD 2-Clause License");
    reveal_strlit("MPL-2.0");
    reveal_strlit("Mozilla Public License 2.0");
    reveal_strlit("ISC");
    reveal_strlit("ISC License");
    reveal_strlit("GPL-2.0");
    reveal_strlit("GPLv2");
    reveal_strlit("GPL-3.0");
    reveal_strlit("GPLv3");
    reveal_strlit("LGPL-2.1");
    reveal_strlit("LGPLv2.1");
    reveal_strlit("LGPL-3.0");
    reveal_strlit("LGPLv3");
    reveal_strlit("mit");
    reveal_strlit("apache");
    reveal_strlit("bsd");
    reveal_strlit("bsd license");
    reveal_strlit("gpl");
    reveal_strlit("lgpl");
    reveal_strlit("mozilla public license");
    reveal_strlit("mpl-2.0");
    reveal_strlit("isc license");
    reveal_strlit("isc");
    reveal_strlit("unlicense");
    reveal_strlit("Unknown");
    lemma_trim_fixed("Unknown"@);
    lemma_not_malformed_by_head("Unknown"@);
    assert("Unknown"@[0] == 'U');
    assert("MPL-2.0"@[0] == 'M');
    assert("GPL-2.0"@[0] == 'G');
    assert("GPL-3.0"@[0] == 'G');
    let lu = lower_seq("Unknown"@);
    assert(lu.len() == 7);
    assert(lu[0] == 'u');
    assert(char_free_from(lu, 'm', 0)) by {
        reveal_with_fuel(crate::strutil::char_free_from, 9);
    }
    assert(char_free_from(lu, 'a', 0)) by {
        reveal_with_fuel(crate::strutil::char_free_from, 9);
    }
    assert(char_free_from(lu, 'b', 0)) by {
        reveal_with_fuel(crate::strutil::char_free_from, 9);
    }
    assert(char_free_from(lu, 'g', 0)) by {
        reveal_with_fuel(crate::strutil::char_free_from, 9);
    }
    lemma_not_contains_absent(lu, "mit"@, 0);
    lemma_not_contains_absent(lu, "apache"@, 0);
    lemma_not_contains_absent(lu, "bsd"@, 0);
    lemma_not_contains_absent(lu, "bsd license"@, 0);
    lemma_not_contains_absent(lu, "gpl"@, 0);
    lemma_not_contains_absent(lu, "lgpl"@, 1);
    lemma_not_contains_longer(lu, "mozilla public license"@);
    lemma_not_contains_longer(lu, "unlicense"@);
    assert(lu != "mpl-2.0"@) by {
        assert("mpl-2.0"@[0] == 'm');
    }
}

/// `"Unlicense"` matches no key of the exact-match table.
#[verifier::rlimit(100)]
proof fn lemma_unlicense_not_in_table()
    ensures
        exact_table("Unlicense"@) is None,
{
    reveal_strlit("Unlicense");
    assert("Unlicense"@.len() == 9);
    reveal_strlit("MIT");
    reveal_strlit("MIT License");
    reveal_strlit("MIT license");
    reveal_strlit("Expat license");
    reveal_strlit("Apache-2.0");
    reveal_strlit("Apache License");
    reveal_strlit("Apache Software License");
    reveal_strlit("BSD-3-Clause");
    reveal_strlit("BSD 3-Clause");
    reveal_strlit("BSD 3-Clause License");
    reveal_strlit("BSD-2-Clause");
    reveal_strlit("BSD 2-Clause");
    reveal_strlit("BSD 2-Clause License");
    reveal_strlit("MPL-2.0");
    reveal_strlit("Mozilla Public License 2.0");
    reveal_strlit("ISC");
    reveal_strlit("ISC License");
    reveal_strlit("GPL-2.0");
    reveal_strlit("GPLv2");
    reveal_strlit("GPL-3.0");
    reveal_strlit("GPLv3");
    reveal_strlit("LGPL-2.1");
    reveal_strlit("LGPLv2.1");
    reveal_strlit("LGPL-3.0");
    reveal_strlit("LGPLv3");
    assert("MIT"@.len() == 3);
    assert("MIT License"@.len() == 11);
    assert("MIT license"@.len() == 11);
    assert("Expat license"@.len() == 13);
    assert("Apache-2.0"@.len() == 10);
    assert("Apache License"@.len() == 14);
    assert("Apache Software License"@.len() == 23);
    assert("BSD-3-Clause"@.len() == 12);
    assert("BSD 3-Clause"@.len() == 12);
    assert("BSD 3-Clause License"@.len() == 20);
    assert("BSD-2-Clause"@.len() == 12);
    assert("BSD 2-Clause"@.len() == 12);
    assert("BSD 2-Clause License"@.len() == 20);
    assert("MPL-2.0"@.len() == 7);
    assert("Mozilla Public License 2.0"@.len() == 26);
    assert("ISC"@.len() == 3);
    assert("ISC License"@.len() == 11);
    assert("GPL-2.0"@.len() == 7);
    assert("GPLv2"@.len() == 5);
    assert("GPL-3.0"@.len() == 7);
    assert("GPLv3"@.len() == 5);
    assert("LGPL-2.1"@.len() == 8);
    assert("LGPLv2.1"@.len() == 8);
    assert("LGPL-3.0"@.len() == 8);
    assert("LGPLv3"@.len() == 6);
}

/// None of the early heuristic patterns occurs in the lowercase form of
/// `"Unlicense"`.
#[verifier::rlimit(100)]
proof fn lemma_unlicense_no_early_match()
    ensures
        !contains_seq(lower_seq("Unlicense"@), "mit"@),
        !contains_seq(lower_seq("Unlicense"@), "apache"@),
        !contains_seq(lower_seq("Unlicense"@), "bsd"@),
        !contains_seq(lower_seq("Unlicense"@), "bsd license"@),
        !contains_seq(lower_seq("Unlicense"@), "gpl"@),
        !contains_seq(lower_seq("Unlicense"@), "lgpl"@),
        !contains_seq(lower_seq("Unlicense"@), "mozilla public license"@),
        lower_seq("Unlicense"@) != "mpl-2.0"@,
        lower_seq("Unlicense"@) != "isc license"@,
        lower_seq("Unlicense"@) != "isc"@,
{
    reveal_strlit("Unlicense");
    reveal_strlit("mit");
    reveal_strlit("apache");
    reveal_strlit("bsd");
    reveal_strlit("bsd license");
    reveal_strlit("gpl");
    reveal_strlit("lgpl");
    reveal_strlit("mozilla public license");
    reveal_strlit("mpl-2.0");
    reveal_strlit("isc license");
    reveal_strlit("isc");
    let ln = lower_seq("Unlicense"@);
    assert(ln.len() == 9);
    assert(char_free_from(ln, 'm', 0)) by {
        reveal_with_fuel(crate::strutil::char_free_from, 11);
    }
    assert(char_free_from(ln, 'a', 0)) by {
        reveal_with_fuel(crate::strutil::char_free_from, 11);
    }
    assert(char_free_from(ln, 'b', 0)) by {
        reveal_with_fuel(crate::strutil::char_free_from, 11);
    }
    assert(char_free_from(ln, 'g', 0)) by {
        reveal_with_fuel(crate::strutil::char_free_from, 11);
    }
    lemma_not_contains_absent(ln, "mit"@, 0);
    lemma_not_contains_absent(ln, "apache"@, 0);
    lemma_not_contains_absent(ln, "bsd"@, 0);
    lemma_not_contains_absent(ln, "bsd license"@, 0);
    lemma_not_contains_absent(ln, "gpl"@, 0);
    lemma_not_contains_absent(ln, "lgpl"@, 1);
    lemma_not_contains_longer(ln, "mozilla public license"@);
    assert(ln[0] == 'u');
    assert("mpl-2.0"@[0] == 'm');
    assert("isc license"@.len() == 11);
    assert("isc"@.len() == 3);
}

/// The lowercase form of `"Unlicense"` contains `"unlicense"`.
#[verifier::rlimit(100)]
proof fn lemma_unlicense_contains_self()
    ensures
        contains_seq(lower_seq("Unlicense"@), "unlicense"@),
{
    reveal_strlit("Unlicense");
    reveal_strlit("unlicense");
    let ln = lower_seq("Unlicense"@);
    assert(ln.len() == 9);
    assert("unlicense"@.len() == 9);
    assert(seq_eq_from(ln, "unlicense"@, 0)) by {
        reveal_with_fuel(crate::strutil::seq_eq_from, 11);
    }
    lemma_seq_eq(ln, "unlicense"@);
    assert(ln.subrange(0, 0 + "unlicense"@.len() as int) =~= "unlicense"@);
}

/// The heuristics recognize `"Unlicense"` as itself.
proof fn lemma_unlicense_heuristic()
    ensures
        heuristic_result(lower_seq("Unlicense"@), "Unlicense"@) == "Unlicense"@,
{
    lemma_unlicense_no_early_match();
    lemma_unlicense_contains_self();
}

/// `"Unlicense"`, the one canonical output the exact-match table does not
/// produce, is a fixed point of normalization.
proof fn lemma_unlicense_fixed()
    ensures
        normalize_spec("Unlicense"@) == "Unlicense"@,
{
    reveal_strlit("Unlicense");
    lemma_trim_fixed("Unlicense"@);
    lemma_not_malformed_by_head("Unlicense"@);
    lemma_unlicense_not_in_table();
    lemma_unlicense_heuristic();
}

/// Normalization is idempotent: normalizing an already normalized license
/// string gives it back unchanged.
pub proof fn lemma_normalize_idempotent(s: Seq<char>)
    ensures
        normalize_spec(normalize_spec(s)) == normalize_spec(s),
{
    lemma_table_outputs_fixed();
    lemma_unknown_fixed();
    lemma_unlicense_fixed();
    lemma_trim_idempotent(s);
}

} // verus!
