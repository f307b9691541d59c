//! Report aggregation: per-package license readings, the counts of license
//! kinds over a package list, and the report record the output renderers
//! consume.

use vstd::prelude::*;

use crate::checker::ViolationSummary;
use crate::license::{
    classifier_license_spec, effective_license_spec, extract_license_from_classifier,
    get_effective_license, is_osi_approved_license, is_osi_spec, normalize_license_name,
    normalize_spec, PackageLicense,
};
use crate::strutil::{contains_seq, str_contains, str_eq};

verus! {

/// License-name counts, split into OSI-approved and other licenses, each
/// sorted by count in descending order.
#[derive(Debug)]
pub struct LicenseTypes {
    pub osi_approved: Vec<(String, usize)>,
    pub non_osi: Vec<(String, usize)>,
}

/// Aggregate numbers over a package list.
#[derive(Debug)]
pub struct LicenseSummary {
    pub total_packages: usize,
    pub with_license: usize,
    pub without_license: usize,
    pub license_types: LicenseTypes,
}

/// A full report: the packages, their aggregate summary, and the violation
/// summary when policy checking ran.
#[derive(Debug)]
pub struct LicenseReport {
    pub packages: Vec<PackageLicense>,
    pub summary: LicenseSummary,
    pub violations: Option<ViolationSummary>,
}

/// The (normalized license, is-OSI) readings the classifiers of a package
/// yield, from position `i` on.
pub open spec fn classifier_infos(cls: Seq<String>, i: int) -> Seq<(Seq<char>, bool)>
    decreases cls.len() - i,
{
    if i < 0 || i >= cls.len() {
        Seq::empty()
    } else {
        (match classifier_license_spec(cls[i]@) {
            Some(nm) => seq![
                (normalize_spec(nm), contains_seq(cls[i]@, "OSI Approved"@)),
            ],
            None => Seq::empty(),
        }) + classifier_infos(cls, i + 1)
    }
}

/// The (normalized license, is-OSI) readings of one package: classifier
/// readings first, else the license field, else a single unknown entry.
pub open spec fn license_info_spec(pkg: PackageLicense) -> Seq<(Seq<char>, bool)> {
    let from_cls = classifier_infos(pkg.license_classifiers@, 0);
    if from_cls.len() > 0 {
        from_cls
    } else {
        match pkg.license {
            Some(l) => seq![(normalize_spec(l@), is_osi_spec(normalize_spec(l@)))],
            None => seq![("Unknown"@, false)],
        }
    }
}

/// The view of an info list.
pub open spec fn infos_view(v: Seq<(String, bool)>) -> Seq<(Seq<char>, bool)> {
    v.map_values(|p: (String, bool)| (p.0@, p.1))
}

/// The license readings of one package, classifiers taking precedence over
/// the license field.
pub fn get_license_info(package: &PackageLicense) -> (r: Vec<(String, bool)>)
    ensures
        infos_view(r@) == license_info_spec(*package),
{
    let mut out: Vec<(String, bool)> = Vec::new();
    let mut i: usize = 0;
    while i < package.license_classifiers.len()
        invariant
            0 <= i <= package.license_classifiers@.len(),
            infos_view(out@) + classifier_infos(package.license_classifiers@, i as int)
                == classifier_infos(package.license_classifiers@, 0),
        decreases package.license_classifiers@.len() - i,
    {
        let cls = &package.license_classifiers[i];
        match extract_license_from_classifier(cls.as_str()) {
            Some(name) => {
                let normalized = normalize_license_name(name.as_str());
                let osi = str_contains(cls.as_str(), "OSI Approved");
                out.push((normalized, osi));
                proof {
                    assert(infos_view(out@) =~= infos_view(out@.drop_last()) + seq![
                        (
                            normalize_spec(name@),
                            contains_seq(
                                package.license_classifiers@[i as int]@,
                                "OSI Approved"@,
                            ),
                        ),
                    ]);
                    assert((infos_view(out@.drop_last()) + seq![
                        (
                            normalize_spec(name@),
                            contains_seq(
                                package.license_classifiers@[i as int]@,
                                "OSI Approved"@,
                            ),
                        ),
                    ]) + classifier_infos(package.license_classifiers@, i + 1)
                        =~= infos_view(out@.drop_last()) + classifier_infos(
                        package.license_classifiers@,
                        i as int,
                    ));
                }
            },
            None => {},
        }
        i = i + 1;
    }
    if out.len() > 0 {
        proof {
            assert(infos_view(out@) + Seq::<(Seq<char>, bool)>::empty() =~= infos_view(out@));
        }
        return out;
    }
    proof {
        assert(classifier_infos(package.license_classifiers@, 0) =~= Seq::<
            (Seq<char>, bool),
        >::empty());
    }
    match &package.license {
        Some(l) => {
            let normalized = normalize_license_name(l.as_str());
            let osi = is_osi_approved_license(normalized.as_str());
            out.push((normalized, osi));
            proof {
                assert(infos_view(out@) =~= license_info_spec(*package));
            }
        },
        None => {
            out.push((String::from_str("Unknown"), false));
            proof {
                assert(infos_view(out@) =~= license_info_spec(*package));
            }
        },
    }
    out
}

/// All license readings of a package list, in package order.
pub open spec fn infos_of_all(pkgs: Seq<PackageLicense>) -> Seq<(Seq<char>, bool)>
    decreases pkgs.len(),
{
    if pkgs.len() == 0 {
        Seq::empty()
    } else {
        infos_of_all(pkgs.drop_last()) + license_info_spec(pkgs.last())
    }
}

/// Count of packages that carry an effective license.
pub open spec fn count_with_license(pkgs: Seq<PackageLicense>) -> int
    decreases pkgs.len(),
{
    if pkgs.len() == 0 {
        0
    } else {
        count_with_license(pkgs.drop_last()) + if effective_license_spec(pkgs.last()) is Some {
            1int
        } else {
            0int
        }
    }
}

/// Occurrences of a license name with the given OSI flag among the
/// readings.
pub open spec fn count_info(infos: Seq<(Seq<char>, bool)>, name: Seq<char>, flag: bool) -> int
    decreases infos.len(),
{
    if infos.len() == 0 {
        0
    } else {
        count_info(infos.drop_last(), name, flag) + if infos.last().0 == name && infos.last().1
            == flag {
            1int
        } else {
            0int
        }
    }
}

proof fn lemma_count_info_le(infos: Seq<(Seq<char>, bool)>, name: Seq<char>, flag: bool)
    ensures
        0 <= count_info(infos, name, flag) <= infos.len(),
    decreases infos.len(),
{
    if infos.len() > 0 {
        lemma_count_info_le(infos.drop_last(), name, flag);
    }
}

proof fn lemma_count_info_pos(infos: Seq<(Seq<char>, bool)>, name: Seq<char>, flag: bool)
    requires
        count_info(infos, name, flag) > 0,
    ensures
        exists|k: int| 0 <= k < infos.len() && (#[trigger] infos[k]).0 == name && infos[k].1
            == flag,
    decreases infos.len(),
{
    if infos.len() > 0 {
        if infos.last().0 == name && infos.last().1 == flag {
            assert(infos[infos.len() - 1].0 == name && infos[infos.len() - 1].1 == flag);
        } else {
            lemma_count_info_pos(infos.drop_last(), name, flag);
            let k = choose|k: int|
                0 <= k < infos.drop_last().len() && (#[trigger] infos.drop_last()[k]).0 == name
                    && infos.drop_last()[k].1 == flag;
            assert(infos[k].0 == name && infos[k].1 == flag);
        }
    }
}

/// The count entries are faithful to the readings: distinct names, each
/// with its exact occurrence count, and every reading with the flag is
/// listed.
pub open spec fn entries_ok(
    entries: Seq<(String, usize)>,
    infos: Seq<(Seq<char>, bool)>,
    flag: bool,
) -> bool {
    &&& forall|i: int, j: int|
        0 <= i < j < entries.len() ==> (#[trigger] entries[i]).0@ != (#[trigger] entries[j]).0@
    &&& forall|i: int|
        0 <= i < entries.len() ==> (#[trigger] entries[i]).1 == count_info(
            infos,
            entries[i].0@,
            flag,
        ) && entries[i].1 >= 1
    &&& forall|k: int|
        0 <= k < infos.len() && (#[trigger] infos[k]).1 == flag ==> exists|i: int|
            0 <= i < entries.len() && (#[trigger] entries[i]).0@ == infos[k].0
}

/// Count the readings with the given flag by license name.
fn count_by_name(infos: &Vec<(String, bool)>, flag: bool) -> (r: Vec<(String, usize)>)
    ensures
        entries_ok(r@, infos_view(infos@), flag),
{
    let mut entries: Vec<(String, usize)> = Vec::new();
    let mut k: usize = 0;
    while k < infos.len()
        invariant
            0 <= k <= infos@.len(),
            entries_ok(entries@, infos_view(infos@).take(k as int), flag),
        decreases infos@.len() - k,
    {
        let ghost iv = infos_view(infos@);
        proof {
            assert(iv.take(k + 1).drop_last() =~= iv.take(k as int));
            assert(iv.take(k + 1).last() == iv[k as int]);
        }
        let info_name = &infos[k].0;
        let info_flag = infos[k].1;
        if info_flag == flag {
            let mut idx: usize = 0;
            let mut found = false;
            while idx < entries.len() && !found
                invariant
                    0 <= idx <= entries@.len(),
                    k < infos@.len(),
                    found ==> idx < entries@.len() && entries@[idx as int].0@ == infos_view(
                        infos@,
                    )[k as int].0,
                    !found ==> forall|p: int|
                        0 <= p < idx ==> (#[trigger] entries@[p]).0@ != infos_view(
                            infos@,
                        )[k as int].0,
                    info_name == infos@[k as int].0,
                decreases entries@.len() - idx, if found { 0int } else { 1int },
            {
                if str_eq(entries[idx].0.as_str(), info_name.as_str()) {
                    found = true;
                } else {
                    idx = idx + 1;
                }
            }
            if found {
                let ghost before = entries@;
                assert(before[idx as int].0@ == iv[k as int].0);
                let e = entries.remove(idx);
                proof {
                    lemma_count_info_le(iv.take(k as int), e.0@, flag);
                }
                let e2 = (e.0, e.1 + 1);
                entries.insert(idx, e2);
                proof {
                    assert(before.remove(idx as int).insert(idx as int, e2) =~= before.update(
                        idx as int,
                        e2,
                    ));
                    assert(entries@ == before.update(idx as int, e2));
                    assert(entries@[idx as int].0@ == before[idx as int].0@);
                    assert forall|i: int, j: int| 0 <= i < j < entries@.len() implies (
                    #[trigger] entries@[i]).0@ != (#[trigger] entries@[j]).0@ by {
                        assert(entries@[i].0@ == before[i].0@);
                        assert(entries@[j].0@ == before[j].0@);
                    }
                    assert forall|i: int| 0 <= i < entries@.len() implies (
                    #[trigger] entries@[i]).1 == count_info(iv.take(k + 1), entries@[i].0@, flag)
                        && entries@[i].1 >= 1 by {
                        if i != idx {
                            assert(entries@[i] == before[i]);
                            assert(before[i].0@ != before[idx as int].0@);
                            assert(count_info(iv.take(k + 1), before[i].0@, flag) == count_info(
                                iv.take(k as int),
                                before[i].0@,
                                flag,
                            ));
                        } else {
                            assert(count_info(iv.take(k + 1), e2.0@, flag) == count_info(
                                iv.take(k as int),
                                e2.0@,
                                flag,
                            ) + 1);
                        }
                    }
                    assert forall|q: int|
                        0 <= q < iv.take(k + 1).len() && (#[trigger] iv.take(k + 1)[q]).1
                            == flag implies exists|i: int|
                        0 <= i < entries@.len() && (#[trigger] entries@[i]).0@ == iv.take(
                            k + 1,
                        )[q].0 by {
                        if q < k {
                            assert(iv.take(k + 1)[q] == iv.take(k as int)[q]);
                            let i = choose|i: int|
                                0 <= i < before.len() && (#[trigger] before[i]).0@ == iv.take(
                                    k as int,
                                )[q].0;
                            assert(entries@[i].0@ == before[i].0@);
                            assert(entries@[i].0@ == iv.take(k + 1)[q].0);
                        } else {
                            assert(entries@[idx as int].0@ == iv.take(k + 1)[q].0);
                        }
                    }
                }
            } else {
                let ghost before = entries@;
                assert(forall|p: int|
                    0 <= p < before.len() ==> (#[trigger] before[p]).0@ != iv[k as int].0);
                entries.push((info_name.clone(), 1));
                proof {
                    assert(entries@ == before.push((infos@[k as int].0, 1)));
                    assert(entries@[before.len() as int].0@ == iv[k as int].0);
                    // the new name had no entry, so it had no occurrences so far
                    lemma_count_info_le(iv.take(k as int), iv[k as int].0, flag);
                    if count_info(iv.take(k as int), iv[k as int].0, flag) > 0 {
                        lemma_count_info_pos(iv.take(k as int), iv[k as int].0, flag);
                        let q0 = choose|q0: int|
                            0 <= q0 < iv.take(k as int).len() && (#[trigger] iv.take(
                                k as int,
                            )[q0]).0 == iv[k as int].0 && iv.take(k as int)[q0].1 == flag;
                        let i0 = choose|i0: int|
                            0 <= i0 < before.len() && (#[trigger] before[i0]).0@ == iv.take(
                                k as int,
                            )[q0].0;
                        assert(false);
                    }
                    assert(count_info(iv.take(k as int), iv[k as int].0, flag) == 0);
                    assert forall|i: int| 0 <= i < entries@.len() implies (
                    #[trigger] entries@[i]).1 == count_info(iv.take(k + 1), entries@[i].0@, flag)
                        && entries@[i].1 >= 1 by {
                        if i < before.len() {
                            assert(entries@[i] == before[i]);
                            assert(before[i].0@ != iv[k as int].0);
                            assert(count_info(iv.take(k + 1), before[i].0@, flag) == count_info(
                                iv.take(k as int),
                                before[i].0@,
                                flag,
                            ));
                        } else {
                            assert(count_info(iv.take(k + 1), iv[k as int].0, flag) == 1);
                        }
                    }
                    assert forall|q: int|
                        0 <= q < iv.take(k + 1).len() && (#[trigger] iv.take(k + 1)[q]).1
                            == flag implies exists|i: int|
                        0 <= i < entries@.len() && (#[trigger] entries@[i]).0@ == iv.take(
                            k + 1,
                        )[q].0 by {
                        if q < k {
                            assert(iv.take(k + 1)[q] == iv.take(k as int)[q]);
                            let i = choose|i: int|
                                0 <= i < before.len() && (#[trigger] before[i]).0@ == iv.take(
                                    k as int,
                                )[q].0;
                            assert(entries@[i] == before[i]);
                            assert(entries@[i].0@ == iv.take(k + 1)[q].0);
                        } else {
                            assert(entries@[before.len() as int].0@ == iv.take(k + 1)[q].0);
                        }
                    }
                }
            }
        } else {
            proof {
                assert forall|q: int|
                    0 <= q < iv.take(k + 1).len() && (#[trigger] iv.take(k + 1)[q]).1
                        == flag implies exists|i: int|
                    0 <= i < entries@.len() && (#[trigger] entries@[i]).0@ == iv.take(
                        k + 1,
                    )[q].0 by {
                    assert(q < k);
                    assert(iv.take(k + 1)[q] == iv.take(k as int)[q]);
                }
                assert forall|i: int| 0 <= i < entries@.len() implies (#[trigger] entries@[i]).1
                    == count_info(iv.take(k + 1), entries@[i].0@, flag) && entries@[i].1
                    >= 1 by {
                    assert(count_info(iv.take(k + 1), entries@[i].0@, flag) == count_info(
                        iv.take(k as int),
                        entries@[i].0@,
                        flag,
                    ));
                }
            }
        }
        k = k + 1;
    }
    proof {
        assert(infos_view(infos@).take(infos@.len() as int) =~= infos_view(infos@));
    }
    entries
}

/// Entries sorted by count, largest first.
pub open spec fn sorted_desc(entries: Seq<(String, usize)>) -> bool {
    forall|i: int, j: int|
        0 <= i < j < entries.len() ==> (#[trigger] entries[i]).1 >= (#[trigger] entries[j]).1
}

/// No two entries share a name.
pub open spec fn distinct_names(entries: Seq<(String, usize)>) -> bool {
    forall|i: int, j: int|
        0 <= i < j < entries.len() ==> (#[trigger] entries[i]).0@ != (#[trigger] entries[j]).0@
}

/// The entry occurs in the list.
pub open spec fn has_entry(s: Seq<(String, usize)>, e: (String, usize)) -> bool {
    exists|j: int| 0 <= j < s.len() && s[j] == e
}

/// Sort count entries by count, largest first; the entries themselves are
/// kept: every output entry is an input entry and the other way round, with
/// the length and the distinctness of names unchanged.
fn sort_entries_desc(entries: Vec<(String, usize)>) -> (r: Vec<(String, usize)>)
    requires
        distinct_names(entries@),
    ensures
        sorted_desc(r@),
        distinct_names(r@),
        r@.len() == entries@.len(),
        forall|i: int| 0 <= i < r@.len() ==> has_entry(entries@, #[trigger] r@[i]),
        forall|j: int| 0 <= j < entries@.len() ==> has_entry(r@, #[trigger] entries@[j]),
{
    let mut rest = entries;
    let mut out: Vec<(String, usize)> = Vec::new();
    proof {
        assert forall|i: int| 0 <= i < rest@.len() implies has_entry(
            entries@,
            #[trigger] rest@[i],
        ) by {
            assert(entries@[i] == rest@[i]);
        }
        assert forall|j: int| 0 <= j < entries@.len() implies has_entry(
            out@,
            #[trigger] entries@[j],
        ) || has_entry(rest@, entries@[j]) by {
            assert(rest@[j] == entries@[j]);
        }
    }
    while rest.len() > 0
        invariant
            out@.len() + rest@.len() == entries@.len(),
            sorted_desc(out@),
            distinct_names(out@),
            distinct_names(rest@),
            forall|i: int, j: int|
                0 <= i < out@.len() && 0 <= j < rest@.len() ==> (#[trigger] out@[i]).0@ != (
                #[trigger] rest@[j]).0@,
            forall|i: int| 0 <= i < out@.len() ==> has_entry(entries@, #[trigger] out@[i]),
            forall|i: int| 0 <= i < rest@.len() ==> has_entry(entries@, #[trigger] rest@[i]),
            forall|j: int|
                0 <= j < entries@.len() ==> has_entry(out@, #[trigger] entries@[j]) || has_entry(
                    rest@,
                    entries@[j],
                ),
        decreases rest@.len(),
    {
        let ghost rest_before = rest@;
        let ghost out_before = out@;
        let e = rest.remove(0);
        let mut pos: usize = 0;
        while pos < out.len() && out[pos].1 >= e.1
            invariant
                0 <= pos <= out@.len(),
                forall|p: int| 0 <= p < pos ==> (#[trigger] out@[p]).1 >= e.1,
                out@ == out_before,
            decreases out@.len() - pos,
        {
            pos = pos + 1;
        }
        let ghost e2 = e;
        out.insert(pos, e);
        proof {
            out_before.insert_ensures(pos as int, e2);
            assert(e2 == rest_before[0]);
            assert(rest@ == rest_before.remove(0));
            let ghost oldof = |i: int| if i < pos { i } else { i - 1 };
            assert forall|i: int, j: int| 0 <= i < j < out@.len() implies (#[trigger] out@[i]).1
                >= (#[trigger] out@[j]).1 by {
                if i < pos && j == pos {
                    assert(out@[i] == out_before[i]);
                } else if i == pos && j > pos {
                    assert(out@[j] == out_before[j - 1]);
                    assert(pos < out_before.len());
                    assert(!(out_before[pos as int].1 >= e2.1));
                    assert(out_before[pos as int].1 >= out_before[j - 1].1 || pos as int == j
                        - 1);
                } else if i < pos && j > pos {
                    assert(out@[i] == out_before[i]);
                    assert(out@[j] == out_before[j - 1]);
                } else if i < pos && j < pos {
                    assert(out@[i] == out_before[i]);
                    assert(out@[j] == out_before[j]);
                } else {
                    assert(out@[i] == out_before[i - 1]);
                    assert(out@[j] == out_before[j - 1]);
                }
            }
            assert forall|i: int, j: int| 0 <= i < j < out@.len() implies (#[trigger] out@[i]).0@
                != (#[trigger] out@[j]).0@ by {
                if i == pos {
                    assert(out@[i] == rest_before[0]);
                    assert(out@[j] == out_before[j - 1]);
                } else if j == pos {
                    assert(out@[j] == rest_before[0]);
                    assert(out@[i] == out_before[i]);
                } else {
                    assert(out@[i] == out_before[oldof(i)]);
                    assert(out@[j] == out_before[oldof(j)]);
                }
            }
            assert forall|i: int, j: int|
                0 <= i < out@.len() && 0 <= j < rest@.len() implies (#[trigger] out@[i]).0@ != (
            #[trigger] rest@[j]).0@ by {
                assert(rest@[j] == rest_before[j + 1]);
                if i == pos {
                    assert(out@[i] == rest_before[0]);
                } else {
                    assert(out@[i] == out_before[oldof(i)]);
                }
            }
            assert forall|i: int| 0 <= i < out@.len() implies has_entry(
                entries@,
                #[trigger] out@[i],
            ) by {
                if i == pos {
                    assert(out@[i] == rest_before[0]);
                } else {
                    assert(out@[i] == out_before[oldof(i)]);
                }
            }
            assert forall|i: int| 0 <= i < rest@.len() implies has_entry(
                entries@,
                #[trigger] rest@[i],
            ) by {
                assert(rest@[i] == rest_before[i + 1]);
            }
            assert forall|j: int| 0 <= j < entries@.len() implies has_entry(
                out@,
                #[trigger] entries@[j],
            ) || has_entry(rest@, entries@[j]) by {
                if has_entry(out_before, entries@[j]) {
                    let i = choose|i: int|
                        0 <= i < out_before.len() && out_before[i] == entries@[j];
                    if i < pos {
                        assert(out@[i] == entries@[j]);
                    } else {
                        assert(out@[i + 1] == entries@[j]);
                    }
                } else {
                    let i = choose|i: int|
                        0 <= i < rest_before.len() && rest_before[i] == entries@[j];
                    if i == 0 {
                        assert(out@[pos as int] == entries@[j]);
                    } else {
                        assert(rest@[i - 1] == entries@[j]);
                    }
                }
            }
        }
    }
    out
}

/// Faithfulness of count entries carries over to a reordering with the
/// same entries and distinct names.
proof fn lemma_entries_ok_transfer(
    a: Seq<(String, usize)>,
    b: Seq<(String, usize)>,
    infos: Seq<(Seq<char>, bool)>,
    flag: bool,
)
    requires
        entries_ok(a, infos, flag),
        distinct_names(b),
        forall|i: int| 0 <= i < b.len() ==> has_entry(a, #[trigger] b[i]),
        forall|j: int| 0 <= j < a.len() ==> has_entry(b, #[trigger] a[j]),
    ensures
        entries_ok(b, infos, flag),
{
    assert forall|i: int| 0 <= i < b.len() implies (#[trigger] b[i]).1 == count_info(
        infos,
        b[i].0@,
        flag,
    ) && b[i].1 >= 1 by {
        let j = choose|j: int| 0 <= j < a.len() && a[j] == b[i];
        assert(a[j].1 == count_info(infos, a[j].0@, flag) && a[j].1 >= 1);
    }
    assert forall|k: int| 0 <= k < infos.len() && (#[trigger] infos[k]).1 == flag implies exists|
        i: int,
    | 0 <= i < b.len() && (#[trigger] b[i]).0@ == infos[k].0 by {
        let j = choose|j: int| 0 <= j < a.len() && (#[trigger] a[j]).0@ == infos[k].0;
        assert(has_entry(b, a[j]));
        let i = choose|i: int| 0 <= i < b.len() && b[i] == a[j];
        assert(b[i].0@ == infos[k].0);
    }
}

/// Shorten a string to at most `max_len` characters, marking a cut with an
/// ellipsis in the last position.
pub fn truncate(s: &str, max_len: usize) -> (r: String)
    requires
        max_len >= 1,
    ensures
        s@.len() <= max_len ==> r@ == s@,
        s@.len() > max_len ==> r@ == s@.subrange(0, max_len - 1) + "\u{2026}"@,
{
    if s.unicode_len() <= max_len {
        String::from_str(s)
    } else {
        let mut r = String::from_str(s.substring_char(0, max_len - 1));
        r.append("\u{2026}");
        r
    }
}

/// Build the report for a package list: the totals, and the license-name
/// counts split into OSI-approved and other licenses, sorted by count in
/// descending order; policy violations are attached separately.
pub fn create_report(packages: Vec<PackageLicense>) -> (r: LicenseReport)
    ensures
        r.packages@ == packages@,
        r.violations is None,
        r.summary.total_packages == packages@.len(),
        r.summary.with_license == count_with_license(packages@),
        r.summary.with_license + r.summary.without_license == packages@.len(),
        sorted_desc(r.summary.license_types.osi_approved@),
        sorted_desc(r.summary.license_types.non_osi@),
        entries_ok(r.summary.license_types.osi_approved@, infos_of_all(packages@), true),
        entries_ok(r.summary.license_types.non_osi@, infos_of_all(packages@), false),
{
    let mut infos: Vec<(String, bool)> = Vec::new();
    let mut with_license: usize = 0;
    let mut i: usize = 0;
    while i < packages.len()
        invariant
            0 <= i <= packages@.len(),
            infos_view(infos@) == infos_of_all(packages@.take(i as int)),
            with_license == count_with_license(packages@.take(i as int)),
            with_license <= i,
        decreases packages@.len() - i,
    {
        proof {
            assert(packages@.take(i + 1).drop_last() =~= packages@.take(i as int));
            assert(packages@.take(i + 1).last() == packages@[i as int]);
        }
        let pkg = &packages[i];
        if get_effective_license(pkg).is_some() {
            with_license = with_license + 1;
        }
        let mut pkg_infos = get_license_info(pkg);
        let ghost before = infos@;
        infos.append(&mut pkg_infos);
        proof {
            assert(infos_view(infos@) =~= infos_view(before) + license_info_spec(
                packages@[i as int],
            ));
        }
        i = i + 1;
    }
    proof {
        assert(packages@.take(packages@.len() as int) =~= packages@);
    }
    let osi_counts = count_by_name(&infos, true);
    let non_osi_counts = count_by_name(&infos, false);
    let ghost osi_seq = osi_counts@;
    let ghost non_osi_seq = non_osi_counts@;
    let osi_approved = sort_entries_desc(osi_counts);
    let non_osi = sort_entries_desc(non_osi_counts);
    let total_packages = packages.len();
    let without_license = total_packages - with_license;
    proof {
        lemma_entries_ok_transfer(osi_seq, osi_approved@, infos_of_all(packages@), true);
        lemma_entries_ok_transfer(non_osi_seq, non_osi@, infos_of_all(packages@), false);
    }
    LicenseReport {
        packages,
        summary: LicenseSummary {
            total_packages,
            with_license,
            without_license,
            license_types: LicenseTypes { osi_approved, non_osi },
        },
        violations: None,
    }
}

} // verus!
