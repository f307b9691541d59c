//! Parsing of installed-package metadata text: the name and version encoded
//! in a metadata directory name, and the license headers of a metadata
//! file. Finding and reading the files themselves happens outside the
//! library, which only receives the text.

use vstd::prelude::*;

use crate::strutil::{
    contains_seq, ends_with_seq, last_index_of_before, starts_with_seq, str_contains,
    str_ends_with, str_eq, str_rfind, str_starts_with, trim, trim_seq,
};

verus! {

/// The (name, version) pair a metadata directory name with the given
/// suffix encodes: the base name split at its last dash, or the whole base
/// name when it holds no dash.
pub open spec fn name_version_spec(s: Seq<char>, suffix: Seq<char>) -> Option<
    (Seq<char>, Option<Seq<char>>),
> {
    if !ends_with_seq(s, suffix) {
        None
    } else {
        let base = s.subrange(0, s.len() - suffix.len());
        match last_index_of_before(base, '-', base.len() as int) {
            Some(d) => Some(
                (base.subrange(0, d), Some(base.subrange(d + 1, base.len() as int))),
            ),
            None => Some((base, None)),
        }
    }
}

/// Split a metadata directory name with the given suffix into package name
/// and version.
fn parse_name_version(file_name: &str, suffix: &str) -> (r: Option<(String, Option<String>)>)
    ensures
        match r {
            Some(p) => name_version_spec(file_name@, suffix@) == Some(
                (p.0@, p.1.deep_view()),
            ),
            None => name_version_spec(file_name@, suffix@) is None,
        },
{
    if !str_ends_with(file_name, suffix) {
        return None;
    }
    let n = file_name.unicode_len();
    let m = suffix.unicode_len();
    let base = file_name.substring_char(0, n - m);
    match str_rfind(base, '-') {
        Some(d) => {
            let name = String::from_str(base.substring_char(0, d));
            let version = String::from_str(base.substring_char(d + 1, base.unicode_len()));
            Some((name, Some(version)))
        },
        None => Some((String::from_str(base), None)),
    }
}

/// Split a `.dist-info` directory name into package name and version.
pub fn parse_name_version_from_dist_info(file_name: &str) -> (r: Option<(String, Option<String>)>)
    ensures
        match r {
            Some(p) => name_version_spec(file_name@, ".dist-info"@) == Some(
                (p.0@, p.1.deep_view()),
            ),
            None => name_version_spec(file_name@, ".dist-info"@) is None,
        },
{
    parse_name_version(file_name, ".dist-info")
}

/// Split an `.egg-info` directory name into package name and version.
pub fn parse_name_version_from_egg_info(file_name: &str) -> (r: Option<(String, Option<String>)>)
    ensures
        match r {
            Some(p) => name_version_spec(file_name@, ".egg-info"@) == Some(
                (p.0@, p.1.deep_view()),
            ),
            None => name_version_spec(file_name@, ".egg-info"@) is None,
        },
{
    parse_name_version(file_name, ".egg-info")
}

/// Position of the first line feed at or after `i` (the length when there
/// is none).
pub open spec fn next_nl(s: Seq<char>, i: int) -> int
    decreases s.len() - i,
{
    if i < 0 || i >= s.len() {
        s.len() as int
    } else if s[i] == '\n' {
        i
    } else {
        next_nl(s, i + 1)
    }
}

proof fn lemma_next_nl_bounds(s: Seq<char>, i: int)
    requires
        0 <= i <= s.len(),
    ensures
        i <= next_nl(s, i) <= s.len(),
    decreases s.len() - i,
{
    if i < s.len() && s[i] != '\n' {
        lemma_next_nl_bounds(s, i + 1);
    }
}

/// A line with its trailing carriage return, if any, removed.
pub open spec fn strip_cr(line: Seq<char>) -> Seq<char> {
    if line.len() > 0 && line[line.len() - 1] == '\r' {
        line.drop_last()
    } else {
        line
    }
}

/// The effect of one metadata line on the license and classifier
/// accumulators: a non-blank `License:` header other than `UNKNOWN`
/// replaces the license; a `Classifier:` header mentioning a license is
/// collected; other lines change nothing.
pub open spec fn metadata_step(
    line: Seq<char>,
    lic: Option<Seq<char>>,
    cls: Seq<Seq<char>>,
) -> (Option<Seq<char>>, Seq<Seq<char>>) {
    if starts_with_seq(line, "License: "@) {
        let v = line.subrange(9, line.len() as int);
        if trim_seq(v).len() > 0 && trim_seq(v) != "UNKNOWN"@ {
            (Some(trim_seq(v)), cls)
        } else {
            (lic, cls)
        }
    } else if starts_with_seq(line, "Classifier: "@) {
        let v = line.subrange(12, line.len() as int);
        if contains_seq(v, "License"@) {
            (lic, cls.push(trim_seq(v)))
        } else {
            (lic, cls)
        }
    } else {
        (lic, cls)
    }
}

/// Fold `metadata_step` over the lines of the text from position `i` on.
pub open spec fn metadata_from(
    s: Seq<char>,
    i: int,
    lic: Option<Seq<char>>,
    cls: Seq<Seq<char>>,
) -> (Option<Seq<char>>, Seq<Seq<char>>)
    decreases s.len() - i + 1
        via metadata_from_decreases
{
    if i < 0 || i >= s.len() {
        (lic, cls)
    } else {
        let j = next_nl(s, i);
        let line = strip_cr(s.subrange(i, j));
        let st = metadata_step(line, lic, cls);
        metadata_from(s, j + 1, st.0, st.1)
    }
}

#[via_fn]
proof fn metadata_from_decreases(
    s: Seq<char>,
    i: int,
    lic: Option<Seq<char>>,
    cls: Seq<Seq<char>>,
) {
    if 0 <= i < s.len() {
        lemma_next_nl_bounds(s, i);
    }
}

/// The license and license classifiers a metadata text yields.
pub open spec fn metadata_spec(s: Seq<char>) -> (Option<Seq<char>>, Seq<Seq<char>>) {
    metadata_from(s, 0, None, Seq::empty())
}

/// Read the `License:` header and the license-related `Classifier:`
/// headers out of a metadata text: the last usable license header wins, a
/// blank or `UNKNOWN` one is ignored, and classifiers are kept in order.
pub fn parse_metadata_content(content: &str) -> (r: (Option<String>, Vec<String>))
    ensures
        r.0.deep_view() == metadata_spec(content@).0,
        r.1.deep_view() == metadata_spec(content@).1,
{
    let n = content.unicode_len();
    let mut license: Option<String> = None;
    let mut classifiers: Vec<String> = Vec::new();
    let mut i: usize = 0;
    proof {
        assert(classifiers.deep_view() =~= Seq::<Seq<char>>::empty());
    }
    while i < n
        invariant
            0 <= i <= n,
            n == content@.len(),
            metadata_spec(content@) == metadata_from(
                content@,
                i as int,
                license.deep_view(),
                classifiers.deep_view(),
            ),
        decreases n - i,
    {
        let ghost lic0 = license.deep_view();
        let ghost cls0 = classifiers.deep_view();
        let mut j: usize = i;
        while j < n && content.get_char(j) != '\n'
            invariant
                i <= j <= n,
                n == content@.len(),
                next_nl(content@, i as int) == next_nl(content@, j as int),
            decreases n - j,
        {
            j = j + 1;
        }
        assert(next_nl(content@, i as int) == j as int);
        let mut line_end = j;
        if line_end > i && content.get_char(line_end - 1) == '\r' {
            line_end = line_end - 1;
        }
        let line = content.substring_char(i, line_end);
        proof {
            assert(line@ =~= strip_cr(content@.subrange(i as int, j as int)));
        }
        if str_starts_with(line, "License: ") {
            proof {
                reveal_strlit("License: ");
            }
            let v = line.substring_char(9, line.unicode_len());
            let t = trim(v);
            if t.unicode_len() > 0 && !str_eq(t, "UNKNOWN") {
                license = Some(String::from_str(t));
            }
        } else if str_starts_with(line, "Classifier: ") {
            proof {
                reveal_strlit("Classifier: ");
            }
            let v = line.substring_char(12, line.unicode_len());
            if str_contains(v, "License") {
                classifiers.push(String::from_str(trim(v)));
            }
        }
        proof {
            let st = metadata_step(strip_cr(content@.subrange(i as int, j as int)), lic0, cls0);
            assert(license.deep_view() == st.0);
            assert(classifiers.deep_view() =~= st.1);
            assert(metadata_from(content@, i as int, lic0, cls0) == metadata_from(
                content@,
                j + 1,
                st.0,
                st.1,
            ));
            if j < n {
            } else {
                assert(metadata_from(content@, j + 1, st.0, st.1) == (st.0, st.1));
                assert(metadata_from(content@, n as int, st.0, st.1) == (st.0, st.1));
            }
        }
        if j < n {
            i = j + 1;
        } else {
            i = n;
        }
    }
    (license, classifiers)
}

} // verus!
