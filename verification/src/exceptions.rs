//! The exception store: time-bounded, operator-approved overrides that take
//! packages out of violation reporting, with expiry handling.

use vstd::prelude::*;

use crate::dates::{date_le, today_utc, Date};
use crate::policy::{exception_covers, opt_str_view, PackageException};
use crate::strutil::str_eq;

verus! {

broadcast use vstd::seq_lib::group_filter_ensures;

/// One stored exception: which package it covers, why it exists, and until
/// when it is active.
#[derive(Debug, Clone)]
pub struct Exception {
    pub name: String,
    pub version: Option<String>,
    pub reason: String,
    pub added_by: Option<String>,
    pub added_date: i64,
    pub expires: Option<Date>,
    pub permanent: bool,
    pub added_interactively: bool,
}

/// The ordered collection of stored exceptions.
#[derive(Debug)]
pub struct ExceptionsFile {
    pub exceptions: Vec<Exception>,
}

/// A stored exception names this package: same name, and the exception's
/// version is absent, the wildcard `"*"`, or equal to the package's version.
pub open spec fn exception_applies(
    e: Exception,
    name: Seq<char>,
    version: Option<Seq<char>>,
) -> bool {
    e.name@ == name && match e.version {
        None => true,
        Some(ev) => ev@ == "*"@ || match version {
            Some(pv) => ev@ == pv,
            None => false,
        },
    }
}

/// The `permanent` flag is the record of an absent expiry; the two fields
/// agree in every exception the crate builds.
pub open spec fn exception_well_formed(e: Exception) -> bool {
    e.permanent == (e.expires is None)
}

/// A stored exception is active on `today`: permanent entries always are,
/// and one with an expiry is active on or before that date and inactive
/// strictly after it.
pub open spec fn exception_active(e: Exception, today: Date) -> bool {
    match e.expires {
        None => true,
        Some(d) => date_le(today, d),
    }
}

/// Some active stored exception names the package.
pub open spec fn is_excepted_spec(
    exceptions: Seq<Exception>,
    name: Seq<char>,
    version: Option<Seq<char>>,
    today: Date,
) -> bool {
    exists|i: int|
        0 <= i < exceptions.len() && exception_applies(#[trigger] exceptions[i], name, version)
            && exception_active(exceptions[i], today)
}

/// Count of entries active on `today`.
pub open spec fn count_active(exceptions: Seq<Exception>, today: Date) -> int
    decreases exceptions.len(),
{
    if exceptions.len() == 0 {
        0
    } else {
        count_active(exceptions.drop_last(), today) + if exception_active(
            exceptions.last(),
            today,
        ) {
            1int
        } else {
            0int
        }
    }
}

/// Count of entries expired as of `today`.
pub open spec fn count_inactive(exceptions: Seq<Exception>, today: Date) -> int
    decreases exceptions.len(),
{
    if exceptions.len() == 0 {
        0
    } else {
        count_inactive(exceptions.drop_last(), today) + if exception_active(
            exceptions.last(),
            today,
        ) {
            0int
        } else {
            1int
        }
    }
}

/// The entries of the store still active on `today`, in order.
pub open spec fn active_entries(exceptions: Seq<Exception>, today: Date) -> Seq<Exception> {
    exceptions.filter(|e: Exception| exception_active(e, today))
}

/// What a cleanup pass leaves behind, as seen from some current date: the
/// active entries in order, with the removal count making up the
/// difference.
pub open spec fn cleanup_outcome(
    before: Seq<Exception>,
    after: Seq<Exception>,
    removed: int,
    today: Date,
) -> bool {
    after == active_entries(before, today) && after.len() + removed == before.len()
}

impl ExceptionsFile {
    /// An empty store.
    pub fn new() -> (r: Self)
        ensures
            r.exceptions@.len() == 0,
    {
        ExceptionsFile { exceptions: Vec::new() }
    }

    /// Append an exception; no deduplication is performed.
    pub fn add_exception(&mut self, exception: Exception)
        ensures
            final(self).exceptions@ == old(self).exceptions@.push(exception),
    {
        self.exceptions.push(exception);
    }

    /// Whether an exception active on `today` names the package.
    pub fn is_excepted_on(&self, package_name: &str, package_version: Option<&str>, today: Date)
        -> (r: bool)
        ensures
            r == is_excepted_spec(
                self.exceptions@,
                package_name@,
                opt_str_view(package_version),
                today,
            ),
    {
        let mut i: usize = 0;
        while i < self.exceptions.len()
            invariant
                0 <= i <= self.exceptions@.len(),
                forall|k: int|
                    0 <= k < i ==> !(exception_applies(
                        #[trigger] self.exceptions@[k],
                        package_name@,
                        opt_str_view(package_version),
                    ) && exception_active(self.exceptions@[k], today)),
            decreases self.exceptions@.len() - i,
        {
            let e = &self.exceptions[i];
            let active = match &e.expires {
                None => true,
                Some(d) => today.on_or_before(*d),
            };
            let name_ok = str_eq(e.name.as_str(), package_name);
            let version_ok = match &e.version {
                None => true,
                Some(ev) => str_eq(ev.as_str(), "*") || match package_version {
                    Some(pv) => str_eq(ev.as_str(), pv),
                    None => false,
                },
            };
            if active && name_ok && version_ok {
                assert(exception_applies(
                    self.exceptions@[i as int],
                    package_name@,
                    opt_str_view(package_version),
                ));
                return true;
            }
            i = i + 1;
        }
        false
    }

    /// Whether an exception active on the current UTC date names the
    /// package. The clock decides which time-bounded entries count, so only
    /// what holds for every current date is promised here;
    /// `is_excepted_on` carries the exact contract.
    pub fn is_excepted(&self, package_name: &str, package_version: Option<&str>) -> (r: bool)
        ensures
            r ==> exists|i: int|
                0 <= i < self.exceptions@.len() && exception_applies(
                    #[trigger] self.exceptions@[i],
                    package_name@,
                    opt_str_view(package_version),
                ),
            (exists|i: int|
                0 <= i < self.exceptions@.len() && exception_applies(
                    #[trigger] self.exceptions@[i],
                    package_name@,
                    opt_str_view(package_version),
                ) && self.exceptions@[i].expires is None) ==> r,
    {
        let today = today_utc();
        self.is_excepted_on(package_name, package_version, today)
    }

    /// Remove every entry expired as of `today`, keeping the active ones in
    /// order; returns how many entries were removed.
    pub fn cleanup_expired_on(&mut self, today: Date) -> (removed: usize)
        ensures
            final(self).exceptions@ == old(self).exceptions@.filter(
                |e: Exception| exception_active(e, today),
            ),
            final(self).exceptions@.len() + removed == old(self).exceptions@.len(),
    {
        let n = self.exceptions.len();
        let mut kept: Vec<Exception> = Vec::new();
        while self.exceptions.len() > 0
            invariant
                n == old(self).exceptions@.len(),
                self.exceptions@.len() <= n,
                self.exceptions@ == old(self).exceptions@.skip(n - self.exceptions@.len()),
                kept@ == old(self).exceptions@.take(n - self.exceptions@.len()).filter(
                    |e: Exception| exception_active(e, today),
                ),
            decreases self.exceptions@.len(),
        {
            let ghost orig = old(self).exceptions@;
            let ghost k = n - self.exceptions@.len();
            let e = self.exceptions.remove(0);
            proof {
                reveal(Seq::filter);
                assert(orig.skip(k).remove(0) =~= orig.skip(k + 1));
                assert(e == orig.skip(k)[0]);
                assert(e == orig[k]);
                assert(orig.take(k + 1).drop_last() =~= orig.take(k));
                assert(orig.take(k + 1).last() == orig[k]);
                assert(orig.take(k + 1).filter(|x: Exception| exception_active(x, today))
                    == orig.take(k).filter(|x: Exception| exception_active(x, today)) + (
                if exception_active(orig[k], today) {
                    seq![orig[k]]
                } else {
                    Seq::empty()
                }));
                if exception_active(orig[k], today) {
                    assert(orig.take(k).filter(|x: Exception| exception_active(x, today)).push(
                        orig[k],
                    ) =~= orig.take(k).filter(|x: Exception| exception_active(x, today)) + seq![
                        orig[k],
                    ]);
                } else {
                    assert(orig.take(k).filter(|x: Exception| exception_active(x, today)) + Seq::<
                        Exception,
                    >::empty() =~= orig.take(k).filter(|x: Exception| exception_active(x, today)));
                }
            }
            let active = match &e.expires {
                None => true,
                Some(d) => today.on_or_before(*d),
            };
            if active {
                kept.push(e);
            }
        }
        proof {
            assert(old(self).exceptions@.take(n as int) =~= old(self).exceptions@);
        }
        let removed = n - kept.len();
        self.exceptions = kept;
        removed
    }

    /// Remove every entry expired as of the current UTC date; the clock
    /// picks the cutoff, so the exact contract lives on
    /// `cleanup_expired_on`. Whatever the date, what remains is the active
    /// part of the store for that date, in order.
    pub fn cleanup_expired(&mut self) -> (removed: usize)
        ensures
            exists|today: Date|
                #[trigger] cleanup_outcome(
                    old(self).exceptions@,
                    final(self).exceptions@,
                    removed as int,
                    today,
                ),
    {
        let today = today_utc();
        let removed = self.cleanup_expired_on(today);
        proof {
            assert(cleanup_outcome(
                old(self).exceptions@,
                self.exceptions@,
                removed as int,
                today,
            ));
        }
        removed
    }
}

/// The expiry boundary: an exception with expiry `d` is active for every
/// current date on or before `d` and inactive for every later one; on a
/// store holding exactly that exception, covering the package,
/// `is_excepted_on` answers accordingly.
pub proof fn lemma_expiry_boundary(
    e: Exception,
    d: Date,
    name: Seq<char>,
    version: Option<Seq<char>>,
    today: Date,
)
    requires
        e.expires == Some(d),
        exception_applies(e, name, version),
    ensures
        exception_active(e, today) == date_le(today, d),
        is_excepted_spec(seq![e], name, version, today) == date_le(today, d),
{
    if date_le(today, d) {
        assert(exception_applies(seq![e][0], name, version));
    }
}

/// Cleanup accounting: on a store with `n` expired and `m` active entries,
/// `cleanup_expired_on` leaves exactly the `m` active entries, each still
/// active, and reports `n` removals.
pub proof fn lemma_cleanup_counts(exceptions: Seq<Exception>, today: Date)
    ensures
        active_entries(exceptions, today).len() == count_active(exceptions, today),
        count_active(exceptions, today) + count_inactive(exceptions, today) == exceptions.len(),
        forall|k: int|
            0 <= k < active_entries(exceptions, today).len() ==> exception_active(
                #[trigger] active_entries(exceptions, today)[k],
                today,
            ),
    decreases exceptions.len(),
{
    reveal(Seq::filter);
    if exceptions.len() > 0 {
        lemma_cleanup_counts(exceptions.drop_last(), today);
        assert(exceptions.drop_last().push(exceptions.last()) =~= exceptions);
    }
}

/// The name/version matching rule of the store agrees with the embedded
/// policy exceptions' rule, so the two systems are interchangeable inputs
/// to "is this package covered".
pub proof fn lemma_matching_semantics_agree(
    e: Exception,
    pe: PackageException,
    name: Seq<char>,
    version: Option<Seq<char>>,
)
    requires
        e.name@ == pe.name@,
        e.version.deep_view() == pe.version.deep_view(),
    ensures
        exception_applies(e, name, version) == exception_covers(pe, name, version),
{
    match e.version {
        None => {
            assert(pe.version is None);
        },
        Some(ev) => {
            assert(pe.version matches Some(pv) && pv@ == ev@);
        },
    }
}

} // verus!
