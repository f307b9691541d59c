//! The interactive resolution workflow's decision logic: grouping the
//! remaining violations by normalized license, stepping through operator
//! decisions, and turning answers into exceptions. The console loop itself
//! lives outside the library and only feeds decisions in.

use vstd::prelude::*;

use crate::checker::{lemma_filter_all_false, lemma_filter_push, Violation};
use crate::dates::{date_from_text, date_plus_days, date_after_days, parse_date, Date};
use crate::exceptions::{exception_well_formed, is_excepted_spec, Exception, ExceptionsFile};
use crate::license::{normalize_license_name, normalize_spec};
use crate::policy::{opt_str_view, PackageException, ViolationLevel};
use crate::strutil::{
    lemma_seq_lt_irrefl, lemma_seq_lt_trans, lemma_seq_lt_trichotomy, lower_char, lower_seq,
    seq_lt, str_eq, str_eq_lower, str_lt, to_lower_char, trim, trim_seq,
};

verus! {

/// The violations sharing one normalized license, with the display data the
/// prompt shows for the group.
#[derive(Debug)]
pub struct LicenseGroup {
    pub license: String,
    pub normalized_license: String,
    pub packages: Vec<Violation>,
    pub violation_type: String,
}

/// The license a violation is grouped under: its recorded license, or
/// `"Unknown"` when none was recorded, normalized once more.
pub open spec fn group_key(v: Violation) -> Seq<char> {
    normalize_spec(
        match v.license {
            Some(l) => l@,
            None => "Unknown"@,
        },
    )
}

/// The headline shown for a violation level in the grouped prompt.
pub open spec fn vtype_for(level: ViolationLevel) -> Seq<char> {
    match level {
        ViolationLevel::Forbidden => "Forbidden license"@,
        ViolationLevel::ReviewRequired => "Review required"@,
        ViolationLevel::Unknown => "Unknown license"@,
        ViolationLevel::Allowed => "Violation"@,
    }
}

/// A group is faithful to a violation list: it holds exactly the
/// violations with its key, in order, and takes its display data from the
/// first of them.
pub open spec fn group_matches(g: LicenseGroup, details: Seq<Violation>) -> bool {
    let flt = details.filter(|v: Violation| group_key(v) == g.normalized_license@);
    &&& g.packages@ == flt
    &&& flt.len() > 0
    &&& g.license@ == (match flt[0].license {
        Some(l) => l@,
        None => "Unknown"@,
    })
    &&& g.violation_type@ == vtype_for(flt[0].violation_level)
}

/// Group keys strictly ascend.
pub open spec fn groups_sorted(gs: Seq<LicenseGroup>) -> bool {
    forall|i: int, j: int|
        0 <= i < j < gs.len() ==> seq_lt(
            (#[trigger] gs[i]).normalized_license@,
            (#[trigger] gs[j]).normalized_license@,
        )
}

/// Every violation of the list has a group under its key.
pub open spec fn groups_cover(gs: Seq<LicenseGroup>, details: Seq<Violation>) -> bool {
    forall|k: int|
        0 <= k < details.len() ==> exists|gi: int|
            0 <= gi < gs.len() && (#[trigger] gs[gi]).normalized_license@ == group_key(
                #[trigger] details[k],
            )
}

/// Distinct groups of a sorted list carry distinct keys.
proof fn lemma_sorted_distinct(gs: Seq<LicenseGroup>, i: int, j: int)
    requires
        groups_sorted(gs),
        0 <= i < gs.len(),
        0 <= j < gs.len(),
        i != j,
    ensures
        gs[i].normalized_license@ != gs[j].normalized_license@,
{
    if gs[i].normalized_license@ == gs[j].normalized_license@ {
        lemma_seq_lt_irrefl(gs[i].normalized_license@);
    }
}

/// Pushing a violation whose key owns the group at `pos` extends that group
/// alone and keeps the invariants.
proof fn lemma_groups_extend_matched(
    gs: Seq<LicenseGroup>,
    gs2: Seq<LicenseGroup>,
    p: Seq<Violation>,
    v: Violation,
    pos: int,
)
    requires
        0 <= pos < gs.len(),
        gs2.len() == gs.len(),
        groups_sorted(gs),
        forall|gi: int| 0 <= gi < gs.len() ==> group_matches(#[trigger] gs[gi], p),
        groups_cover(gs, p),
        group_key(v) == gs[pos].normalized_license@,
        gs2[pos].normalized_license@ == gs[pos].normalized_license@,
        gs2[pos].license@ == gs[pos].license@,
        gs2[pos].violation_type@ == gs[pos].violation_type@,
        gs2[pos].packages@ == gs[pos].packages@.push(v),
        forall|gi: int| 0 <= gi < gs.len() && gi != pos ==> #[trigger] gs2[gi] == gs[gi],
    ensures
        groups_sorted(gs2),
        forall|gi: int| 0 <= gi < gs2.len() ==> group_matches(#[trigger] gs2[gi], p.push(v)),
        groups_cover(gs2, p.push(v)),
{
    assert forall|gi: int| 0 <= gi < gs2.len() implies group_matches(
        #[trigger] gs2[gi],
        p.push(v),
    ) by {
        let pred = |x: Violation| group_key(x) == gs2[gi].normalized_license@;
        lemma_filter_push(p, v, pred);
        if gi == pos {
            assert(pred(v));
            assert(gs[pos].packages@.push(v) =~= gs[pos].packages@ + seq![v]);
            assert(group_matches(gs[pos], p));
            assert(p.filter(pred) == gs[pos].packages@);
            assert(p.push(v).filter(pred) == gs2[pos].packages@);
            assert(p.push(v).filter(pred)[0] == p.filter(pred)[0]);
        } else {
            lemma_sorted_distinct(gs, gi, pos);
            assert(!pred(v));
            assert(p.filter(pred) + Seq::<Violation>::empty() =~= p.filter(pred));
            assert(group_matches(gs[gi], p));
        }
    }
    assert forall|i: int, j: int| 0 <= i < j < gs2.len() implies seq_lt(
        (#[trigger] gs2[i]).normalized_license@,
        (#[trigger] gs2[j]).normalized_license@,
    ) by {
        assert(gs2[i].normalized_license@ == gs[i].normalized_license@);
        assert(gs2[j].normalized_license@ == gs[j].normalized_license@);
    }
    assert forall|k: int| 0 <= k < p.push(v).len() implies exists|gi: int|
        0 <= gi < gs2.len() && (#[trigger] gs2[gi]).normalized_license@ == group_key(
            #[trigger] p.push(v)[k],
        ) by {
        if k < p.len() {
            assert(p.push(v)[k] == p[k]);
            let gi = choose|gi: int|
                0 <= gi < gs.len() && (#[trigger] gs[gi]).normalized_license@ == group_key(p[k]);
            assert(gs2[gi].normalized_license@ == group_key(p.push(v)[k]));
        } else {
            assert(p.push(v)[k] == v);
            assert(gs2[pos].normalized_license@ == group_key(p.push(v)[k]));
        }
    }
}

/// Inserting a fresh group for a new key at its sorted position keeps the
/// invariants.
proof fn lemma_groups_extend_new(
    gs: Seq<LicenseGroup>,
    p: Seq<Violation>,
    v: Violation,
    pos: int,
    g: LicenseGroup,
)
    requires
        0 <= pos <= gs.len(),
        groups_sorted(gs),
        forall|gi: int| 0 <= gi < gs.len() ==> group_matches(#[trigger] gs[gi], p),
        groups_cover(gs, p),
        g.normalized_license@ == group_key(v),
        forall|q: int| 0 <= q < pos ==> seq_lt((#[trigger] gs[q]).normalized_license@, group_key(v)),
        pos < gs.len() ==> seq_lt(group_key(v), gs[pos].normalized_license@),
        g.packages@ == seq![v],
        g.license@ == (match v.license {
            Some(l) => l@,
            None => "Unknown"@,
        }),
        g.violation_type@ == vtype_for(v.violation_level),
    ensures
        groups_sorted(gs.insert(pos, g)),
        forall|gi: int|
            0 <= gi < gs.insert(pos, g).len() ==> group_matches(
                #[trigger] gs.insert(pos, g)[gi],
                p.push(v),
            ),
        groups_cover(gs.insert(pos, g), p.push(v)),
{
    let gs2 = gs.insert(pos, g);
    gs.insert_ensures(pos, g);
    // the new key differs from every old key
    assert forall|q: int| 0 <= q < gs.len() implies gs[q].normalized_license@ != group_key(
        v,
    ) by {
        if q < pos {
            lemma_seq_lt_irrefl(gs[q].normalized_license@);
        } else {
            lemma_seq_lt_irrefl(group_key(v));
            if gs[q].normalized_license@ == group_key(v) {
                if q > pos {
                    assert(seq_lt(gs[pos].normalized_license@, gs[q].normalized_license@));
                    lemma_seq_lt_trans(
                        group_key(v),
                        gs[pos].normalized_license@,
                        gs[q].normalized_license@,
                    );
                }
            }
        }
    }
    assert forall|i: int, j: int| 0 <= i < j < gs2.len() implies seq_lt(
        (#[trigger] gs2[i]).normalized_license@,
        (#[trigger] gs2[j]).normalized_license@,
    ) by {
        if i < pos && j > pos {
        } else if i == pos && j > pos {
            if !seq_lt(group_key(v), gs[j - 1].normalized_license@) {
                assert(pos < gs.len());
                if pos < j - 1 {
                    lemma_seq_lt_trans(
                        group_key(v),
                        gs[pos].normalized_license@,
                        gs[j - 1].normalized_license@,
                    );
                }
            }
        }
    }
    assert forall|gi: int| 0 <= gi < gs2.len() implies group_matches(
        #[trigger] gs2[gi],
        p.push(v),
    ) by {
        let pred = |x: Violation| group_key(x) == gs2[gi].normalized_license@;
        lemma_filter_push(p, v, pred);
        if gi == pos {
            assert forall|k: int| 0 <= k < p.len() implies !pred(p[k]) by {
                let ogi = choose|ogi: int|
                    0 <= ogi < gs.len() && (#[trigger] gs[ogi]).normalized_license@ == group_key(
                        p[k],
                    );
                if pred(p[k]) {
                    assert(gs[ogi].normalized_license@ == group_key(v));
                }
            }
            lemma_filter_all_false(p, pred);
            assert(p.filter(pred) + seq![v] =~= seq![v]);
            assert(gs2[gi].packages@ == p.push(v).filter(pred));
        } else {
            let old_gi: int = if gi < pos {
                gi
            } else {
                gi - 1
            };
            assert(gs2[gi] == gs[old_gi]);
            assert(!pred(v));
            assert(p.filter(pred) + Seq::<Violation>::empty() =~= p.filter(pred));
        }
    }
    assert forall|k: int| 0 <= k < p.push(v).len() implies exists|gi: int|
        0 <= gi < gs2.len() && (#[trigger] gs2[gi]).normalized_license@ == group_key(
            #[trigger] p.push(v)[k],
        ) by {
        if k < p.len() {
            assert(p.push(v)[k] == p[k]);
            let ogi = choose|ogi: int|
                0 <= ogi < gs.len() && (#[trigger] gs[ogi]).normalized_license@ == group_key(p[k]);
            let ngi: int = if ogi < pos {
                ogi
            } else {
                ogi + 1
            };
            assert(gs2[ngi].normalized_license@ == group_key(p.push(v)[k]));
        } else {
            assert(p.push(v)[k] == v);
            assert(gs2[pos].normalized_license@ == group_key(p.push(v)[k]));
        }
    }
}

/// Bucket violations by normalized license: the groups come out sorted by
/// key, each holds exactly the violations with its key in input order, and
/// each takes its displayed license and violation type from the first of
/// them.
pub fn group_violations_by_license(violations: Vec<Violation>) -> (groups: Vec<LicenseGroup>)
    ensures
        groups_sorted(groups@),
        forall|gi: int|
            0 <= gi < groups@.len() ==> group_matches(#[trigger] groups@[gi], violations@),
        groups_cover(groups@, violations@),
{
    let mut rest = violations;
    let mut groups: Vec<LicenseGroup> = Vec::new();
    while rest.len() > 0
        invariant
            rest@.len() <= violations@.len(),
            rest@ == violations@.skip(violations@.len() - rest@.len()),
            groups_sorted(groups@),
            forall|gi: int|
                0 <= gi < groups@.len() ==> group_matches(
                    #[trigger] groups@[gi],
                    violations@.take(violations@.len() - rest@.len()),
                ),
            groups_cover(groups@, violations@.take(violations@.len() - rest@.len())),
        decreases rest@.len(),
    {
        let ghost all = violations@;
        let ghost k = all.len() - rest@.len();
        let ghost p = all.take(k);
        let v = rest.remove(0);
        proof {
            assert(all.skip(k).remove(0) =~= all.skip(k + 1));
            assert(v == all.skip(k)[0]);
            assert(v == all[k]);
            assert(all.take(k + 1) =~= p.push(v));
        }
        let lic_str: String = match &v.license {
            Some(l) => l.clone(),
            None => String::from_str("Unknown"),
        };
        let key = normalize_license_name(lic_str.as_str());
        assert(key@ == group_key(v));
        let mut pos: usize = 0;
        while pos < groups.len() && str_lt(groups[pos].normalized_license.as_str(), key.as_str())
            invariant
                0 <= pos <= groups@.len(),
                key@ == group_key(v),
                forall|q: int|
                    0 <= q < pos ==> seq_lt((#[trigger] groups@[q]).normalized_license@, key@),
            decreases groups@.len() - pos,
        {
            pos = pos + 1;
        }
        if pos < groups.len() && str_eq(groups[pos].normalized_license.as_str(), key.as_str()) {
            let ghost gs_before = groups@;
            let mut g = groups.remove(pos);
            g.packages.push(v);
            let ghost g2 = g;
            groups.insert(pos, g);
            proof {
                assert(gs_before.remove(pos as int).insert(pos as int, g2) =~= gs_before.update(
                    pos as int,
                    g2,
                ));
                assert(groups@ == gs_before.update(pos as int, g2));
                lemma_groups_extend_matched(gs_before, groups@, p, all[k], pos as int);
            }
        } else {
            let vtype = match v.violation_level {
                ViolationLevel::Forbidden => String::from_str("Forbidden license"),
                ViolationLevel::ReviewRequired => String::from_str("Review required"),
                ViolationLevel::Unknown => String::from_str("Unknown license"),
                ViolationLevel::Allowed => String::from_str("Violation"),
            };
            let mut pkgs: Vec<Violation> = Vec::new();
            proof {
                if pos < groups@.len() {
                    lemma_seq_lt_trichotomy(key@, groups@[pos as int].normalized_license@);
                }
            }
            pkgs.push(v);
            let g = LicenseGroup {
                license: lic_str,
                normalized_license: key,
                packages: pkgs,
                violation_type: vtype,
            };
            proof {
                lemma_groups_extend_new(groups@, p, all[k], pos as int, g);
            }
            groups.insert(pos, g);
        }
    }
    proof {
        assert(violations@.take(violations@.len() as int) =~= violations@);
    }
    groups
}

/// The operator's answer for one license group.
#[derive(Debug)]
pub enum GroupDecision {
    /// Add one exception per package of the group, all sharing this reason
    /// and expiry.
    Accept { reason: String, expires: Option<Date> },
    /// Leave the group's packages unresolved.
    Skip,
    /// Stop: leave this and every later group unresolved.
    Quit,
}

/// The exception created for one violation of an accepted group.
pub open spec fn exception_for(
    e: Exception,
    v: Violation,
    reason: Seq<char>,
    expires: Option<Date>,
    now: i64,
    added_by: Option<Seq<char>>,
) -> bool {
    &&& e.name@ == v.package_name@
    &&& e.version.deep_view() == v.package_version.deep_view()
    &&& e.reason@ == reason
    &&& e.added_by.deep_view() == added_by
    &&& e.added_date == now
    &&& e.expires == expires
    &&& e.permanent == (expires is None)
    &&& e.added_interactively
}

/// All violations of a group list, in order.
pub open spec fn all_packages(gs: Seq<LicenseGroup>) -> Seq<Violation>
    decreases gs.len(),
{
    if gs.len() == 0 {
        Seq::empty()
    } else {
        gs[0].packages@ + all_packages(gs.subrange(1, gs.len() as int))
    }
}

/// The view of an optional owned string.
pub open spec fn opt_string_view(v: Option<String>) -> Option<Seq<char>> {
    match v {
        Some(s) => Some(s@),
        None => None,
    }
}

/// Copy an optional string, field for field.
fn clone_opt_string(v: &Option<String>) -> (r: Option<String>)
    ensures
        r == *v,
{
    match v {
        Some(s) => Some(s.clone()),
        None => None,
    }
}

/// Where the resolution loop stands: the groups not yet decided, the
/// violations already left unresolved, and the exceptions accepted so far.
#[derive(Debug)]
pub struct ResolutionState {
    pub pending: Vec<LicenseGroup>,
    pub remaining: Vec<Violation>,
    pub new_exceptions: Vec<Exception>,
    pub quit: bool,
}

impl ResolutionState {
    /// Start resolving the given groups.
    pub fn start(groups: Vec<LicenseGroup>) -> (r: Self)
        ensures
            r.pending@ == groups@,
            r.remaining@.len() == 0,
            r.new_exceptions@.len() == 0,
            !r.quit,
    {
        ResolutionState {
            pending: groups,
            remaining: Vec::new(),
            new_exceptions: Vec::new(),
            quit: false,
        }
    }

    /// The loop is over: every group is decided, or the operator quit.
    pub fn done(&self) -> (r: bool)
        ensures
            r == (self.pending@.len() == 0 || self.quit),
    {
        self.pending.len() == 0 || self.quit
    }

    /// Apply the operator's decision for the first pending group: accepting
    /// creates one exception per package of the group, sharing the given
    /// reason and expiry; skipping moves the group's packages to the
    /// unresolved list; quitting moves every pending group's packages there
    /// and ends the loop.
    pub fn step(&mut self, decision: GroupDecision, now: i64, added_by: Option<String>)
        requires
            old(self).pending@.len() > 0,
            !old(self).quit,
        ensures
            match decision {
                GroupDecision::Accept { reason, expires } => {
                    &&& final(self).pending@ == old(self).pending@.remove(0)
                    &&& final(self).remaining@ == old(self).remaining@
                    &&& !final(self).quit
                    &&& final(self).new_exceptions@.len() == old(self).new_exceptions@.len() + old(self).pending@[0].packages@.len()
                    &&& forall|j: int|
                        0 <= j < old(self).new_exceptions@.len() ==> final(self).new_exceptions@[j] == old(self).new_exceptions@[j]
                    &&& forall|j: int|
                        0 <= j < old(self).pending@[0].packages@.len() ==> exception_for(
                            #[trigger] final(self).new_exceptions@[old(self).new_exceptions@.len() + j],
                            old(self).pending@[0].packages@[j],
                            reason@,
                            expires,
                            now,
                            opt_string_view(added_by),
                        )
                },
                GroupDecision::Skip => {
                    &&& final(self).pending@ == old(self).pending@.remove(0)
                    &&& final(self).remaining@ == old(self).remaining@ + old(self).pending@[0].packages@
                    &&& final(self).new_exceptions@ == old(self).new_exceptions@
                    &&& !final(self).quit
                },
                GroupDecision::Quit => {
                    &&& final(self).pending@.len() == 0
                    &&& final(self).remaining@ == old(self).remaining@ + all_packages(
                        old(self).pending@,
                    )
                    &&& final(self).new_exceptions@ == old(self).new_exceptions@
                    &&& final(self).quit
                },
            },
    {
        match decision {
            GroupDecision::Accept { reason, expires } => {
                let g = self.pending.remove(0);
                let mut i: usize = 0;
                while i < g.packages.len()
                    invariant
                        0 <= i <= g.packages@.len(),
                        g == old(self).pending@[0],
                        self.pending@ == old(self).pending@.remove(0),
                        self.remaining@ == old(self).remaining@,
                        self.quit == old(self).quit,
                        !old(self).quit,
                        self.new_exceptions@.len() == old(self).new_exceptions@.len() + i,
                        forall|j: int|
                            0 <= j < old(self).new_exceptions@.len() ==> self.new_exceptions@[j]
                                == old(self).new_exceptions@[j],
                        forall|j: int|
                            0 <= j < i ==> exception_for(
                                #[trigger] self.new_exceptions@[old(self).new_exceptions@.len() + j],
                                g.packages@[j],
                                reason@,
                                expires,
                                now,
                                opt_string_view(added_by),
                            ),
                    decreases g.packages@.len() - i,
                {
                    let v = &g.packages[i];
                    let e = Exception {
                        name: v.package_name.clone(),
                        version: clone_opt_string(&v.package_version),
                        reason: reason.clone(),
                        added_by: clone_opt_string(&added_by),
                        added_date: now,
                        expires,
                        permanent: expires.is_none(),
                        added_interactively: true,
                    };
                    self.new_exceptions.push(e);
                    i = i + 1;
                }
            },
            GroupDecision::Skip => {
                let mut g = self.pending.remove(0);
                self.remaining.append(&mut g.packages);
            },
            GroupDecision::Quit => {
                self.quit = true;
                while self.pending.len() > 0
                    invariant
                        self.remaining@ + all_packages(self.pending@) == old(self).remaining@
                            + all_packages(old(self).pending@),
                        self.new_exceptions@ == old(self).new_exceptions@,
                        self.quit,
                    decreases self.pending@.len(),
                {
                    let ghost pend = self.pending@;
                    let mut g = self.pending.remove(0);
                    proof {
                        assert(pend.remove(0) =~= pend.subrange(1, pend.len() as int));
                        assert(all_packages(pend) == g.packages@ + all_packages(
                            pend.subrange(1, pend.len() as int),
                        ));
                    }
                    let ghost rem_before = self.remaining@;
                    self.remaining.append(&mut g.packages);
                    proof {
                        assert((rem_before + g.packages@) + all_packages(self.pending@)
                            =~= rem_before + (g.packages@ + all_packages(self.pending@)));
                    }
                }
                proof {
                    assert(all_packages(self.pending@) =~= Seq::empty());
                    assert(self.remaining@ + Seq::<Violation>::empty() =~= self.remaining@);
                }
            },
        }
    }
}

/// The operator typed an affirmative answer: the trimmed input starts with
/// `y` or `Y`.
pub open spec fn affirmative(s: Seq<char>) -> bool {
    let t = trim_seq(s);
    t.len() > 0 && lower_char(t[0]) == 'y'
}

/// Whether a prompt answer counts as a yes.
pub fn answer_is_yes(input: &str) -> (r: bool)
    ensures
        r == affirmative(input@),
{
    let t = trim(input);
    if t.unicode_len() == 0 {
        false
    } else {
        to_lower_char(t.get_char(0)) == 'y'
    }
}

/// The reason recorded for a single-package exception: shorthand keywords
/// expand to canned phrases, an empty answer to a default, and anything
/// else is kept as typed (trimmed).
pub open spec fn expand_reason_spec(s: Seq<char>) -> Seq<char> {
    let t = trim_seq(s);
    if t.len() == 0 {
        "temporary exception"@
    } else if t == "research"@ {
        "research prototype"@
    } else if t == "migration"@ {
        "migration in progress"@
    } else if t == "legacy"@ {
        "legacy compatibility"@
    } else {
        t
    }
}

/// Expand a free-text reason answer for a single package.
pub fn expand_reason(input: &str) -> (r: String)
    ensures
        r@ == expand_reason_spec(input@),
{
    let t = trim(input);
    if t.unicode_len() == 0 {
        return String::from_str("temporary exception");
    }
    if str_eq(t, "research") {
        return String::from_str("research prototype");
    }
    if str_eq(t, "migration") {
        return String::from_str("migration in progress");
    }
    if str_eq(t, "legacy") {
        return String::from_str("legacy compatibility");
    }
    String::from_str(t)
}

/// The reason recorded for a whole license group, carrying the group's
/// normalized license in the canned phrases.
pub open spec fn expand_group_reason_spec(s: Seq<char>, lic: Seq<char>) -> Seq<char> {
    let t = trim_seq(s);
    if t.len() == 0 {
        "temporary exception for "@ + lic + " license"@
    } else if t == "research"@ {
        "research prototype - "@ + lic + " license"@
    } else if t == "migration"@ {
        "migration in progress - "@ + lic + " license"@
    } else if t == "legacy"@ {
        "legacy compatibility - "@ + lic + " license"@
    } else {
        t
    }
}

/// Expand a free-text reason answer for a license group.
pub fn expand_group_reason(input: &str, normalized_license: &str) -> (r: String)
    ensures
        r@ == expand_group_reason_spec(input@, normalized_license@),
{
    let t = trim(input);
    if t.unicode_len() == 0 {
        let mut s = String::from_str("temporary exception for ");
        s.append(normalized_license);
        s.append(" license");
        return s;
    }
    if str_eq(t, "research") {
        let mut s = String::from_str("research prototype - ");
        s.append(normalized_license);
        s.append(" license");
        return s;
    }
    if str_eq(t, "migration") {
        let mut s = String::from_str("migration in progress - ");
        s.append(normalized_license);
        s.append(" license");
        return s;
    }
    if str_eq(t, "legacy") {
        let mut s = String::from_str("legacy compatibility - ");
        s.append(normalized_license);
        s.append(" license");
        return s;
    }
    String::from_str(t)
}

/// The expiry an answer resolves to, as a (year, month, day) triple, and
/// whether the default was used because the text did not parse: an empty
/// answer takes the default of ninety days from today, `never` and
/// `permanent` (in any case) mean no expiry, a date in `%Y-%m-%d` form is
/// taken as typed, and anything else falls back to the default.
pub open spec fn resolve_expiry_spec(s: Seq<char>, today: Date) -> (Option<(i32, u8, u8)>, bool) {
    let t = trim_seq(s);
    let def = date_plus_days((today.year, today.month, today.day), 90);
    if t.len() == 0 {
        (Some(def), false)
    } else if lower_seq(t) == "never"@ || lower_seq(t) == "permanent"@ {
        (None, false)
    } else {
        match date_from_text(t) {
            Some(d) => (Some(d), false),
            None => (Some(def), true),
        }
    }
}

/// Resolve an expiry answer against today's date; the second component
/// reports that unparseable text fell back to the default.
pub fn resolve_expiry(input: &str, today: Date) -> (r: (Option<Date>, bool))
    ensures
        ({
            let (sd, fallback) = resolve_expiry_spec(input@, today);
            &&& r.1 == fallback
            &&& match (r.0, sd) {
                (Some(d), Some(t3)) => (d.year, d.month, d.day) == t3,
                (None, None) => true,
                _ => false,
            }
        }),
{
    let t = trim(input);
    if t.unicode_len() == 0 {
        return (Some(date_after_days(today, 90)), false);
    }
    if str_eq_lower(t, "never") || str_eq_lower(t, "permanent") {
        return (None, false);
    }
    match parse_date(t) {
        Some(d) => (Some(d), false),
        None => (Some(date_after_days(today, 90)), true),
    }
}

/// Build the exception one accepted prompt records for a package.
pub fn build_exception(
    package_name: &str,
    package_version: Option<&str>,
    reason: String,
    expires: Option<Date>,
    now: i64,
    added_by: Option<String>,
) -> (e: Exception)
    ensures
        e.name@ == package_name@,
        opt_string_view(e.version) == opt_str_view(package_version),
        e.reason == reason,
        e.added_by == added_by,
        e.added_date == now,
        e.expires == expires,
        e.permanent == (expires is None),
        exception_well_formed(e),
        e.added_interactively,
{
    let version = match package_version {
        Some(v) => Some(String::from_str(v)),
        None => None,
    };
    Exception {
        name: String::from_str(package_name),
        version,
        reason,
        added_by,
        added_date: now,
        expires,
        permanent: expires.is_none(),
        added_interactively: true,
    }
}

/// Drop the violations already covered by an active stored exception,
/// keeping the rest in order.
pub fn filter_unexcepted(store: &ExceptionsFile, details: Vec<Violation>, today: Date) -> (r: Vec<
    Violation,
>)
    ensures
        r@ == details@.filter(
            |v: Violation|
                !is_excepted_spec(
                    store.exceptions@,
                    v.package_name@,
                    v.package_version.deep_view(),
                    today,
                ),
        ),
{
    let ghost pred = |v: Violation|
        !is_excepted_spec(store.exceptions@, v.package_name@, v.package_version.deep_view(), today);
    let mut rest = details;
    let mut out: Vec<Violation> = Vec::new();
    while rest.len() > 0
        invariant
            rest@.len() <= details@.len(),
            rest@ == details@.skip(details@.len() - rest@.len()),
            out@ == details@.take(details@.len() - rest@.len()).filter(
                |v: Violation|
                    !is_excepted_spec(
                        store.exceptions@,
                        v.package_name@,
                        v.package_version.deep_view(),
                        today,
                    ),
            ),
        decreases rest@.len(),
    {
        let ghost all = details@;
        let ghost k = all.len() - rest@.len();
        let v = rest.remove(0);
        proof {
            assert(all.skip(k).remove(0) =~= all.skip(k + 1));
            assert(v == all.skip(k)[0]);
            assert(v == all[k]);
            assert(all.take(k + 1) =~= all.take(k).push(v));
            lemma_filter_push(
                all.take(k),
                v,
                |x: Violation|
                    !is_excepted_spec(
                        store.exceptions@,
                        x.package_name@,
                        x.package_version.deep_view(),
                        today,
                    ),
            );
        }
        let ver: Option<&str> = match &v.package_version {
            Some(s) => Some(s.as_str()),
            None => None,
        };
        assert(opt_str_view(ver) == v.package_version.deep_view());
        let covered = store.is_excepted_on(v.package_name.as_str(), ver, today);
        if !covered {
            out.push(v);
            proof {
                let p2 = |x: Violation|
                    !is_excepted_spec(
                        store.exceptions@,
                        x.package_name@,
                        x.package_version.deep_view(),
                        today,
                    );
                assert(all.take(k).filter(p2).push(all[k]) =~= all.take(k).filter(p2) + seq![
                    all[k],
                ]);
            }
        } else {
            proof {
                let p2 = |x: Violation|
                    !is_excepted_spec(
                        store.exceptions@,
                        x.package_name@,
                        x.package_version.deep_view(),
                        today,
                    );
                assert(all.take(k).filter(p2) + Seq::<Violation>::empty() =~= all.take(k).filter(
                    p2,
                ));
            }
        }
    }
    proof {
        assert(details@.take(details@.len() as int) =~= details@);
    }
    out
}

/// The policy exception the fix command records for one reported
/// violation: same package identity, with a reason naming the license.
pub open spec fn auto_exception_for(e: PackageException, v: Violation) -> bool {
    &&& e.name@ == v.package_name@
    &&& e.version.deep_view() == v.package_version.deep_view()
    &&& e.reason@ == "Auto-generated exception for "@ + (match v.license {
        Some(l) => l@,
        None => "unknown"@,
    }) + " license"@
}

/// Build one embedded policy exception per reported violation, as the
/// non-interactive fix command records them.
pub fn exceptions_from_violations(details: &Vec<Violation>) -> (r: Vec<PackageException>)
    ensures
        r@.len() == details@.len(),
        forall|i: int|
            0 <= i < details@.len() ==> auto_exception_for(
                #[trigger] r@[i],
                details@[i],
            ),
{
    let mut out: Vec<PackageException> = Vec::new();
    let mut i: usize = 0;
    while i < details.len()
        invariant
            0 <= i <= details@.len(),
            out@.len() == i,
            forall|j: int| 0 <= j < i ==> auto_exception_for(#[trigger] out@[j], details@[j]),
        decreases details@.len() - i,
    {
        let v = &details[i];
        let mut reason = String::from_str("Auto-generated exception for ");
        match &v.license {
            Some(l) => reason.append(l.as_str()),
            None => reason.append("unknown"),
        }
        reason.append(" license");
        let e = PackageException {
            name: v.package_name.clone(),
            version: clone_opt_string(&v.package_version),
            reason,
        };
        out.push(e);
        i = i + 1;
    }
    out
}

/// The violations of a list not covered by an active stored exception, in
/// order.
pub open spec fn unexcepted_of(
    details: Seq<Violation>,
    store: Seq<Exception>,
    today: Date,
) -> Seq<Violation> {
    details.filter(
        |v: Violation|
            !is_excepted_spec(store, v.package_name@, v.package_version.deep_view(), today),
    )
}

/// A violation that survives `filter_unexcepted` names a package no active
/// stored exception covers.
pub proof fn lemma_filtered_not_excepted(
    details: Seq<Violation>,
    store: Seq<Exception>,
    today: Date,
)
    ensures
        forall|k: int|
            0 <= k < unexcepted_of(details, store, today).len() ==> !is_excepted_spec(
                store,
                (#[trigger] unexcepted_of(details, store, today)[k]).package_name@,
                unexcepted_of(details, store, today)[k].package_version.deep_view(),
                today,
            ),
{
    let pred = |v: Violation|
        !is_excepted_spec(store, v.package_name@, v.package_version.deep_view(), today);
    assert forall|k: int| 0 <= k < unexcepted_of(details, store, today).len() implies
        !is_excepted_spec(
        store,
        (#[trigger] unexcepted_of(details, store, today)[k]).package_name@,
        unexcepted_of(details, store, today)[k].package_version.deep_view(),
        today,
    ) by {
        details.lemma_filter_pred(pred, k);
    }
}

} // verus!
