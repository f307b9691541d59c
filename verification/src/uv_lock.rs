//! The data model of a `uv.lock` file and the extraction of usable
//! (name, version) pairs from it. Reading and TOML-parsing the file itself
//! happens outside the library, which only receives the structured values.

use vstd::prelude::*;

use crate::strutil::{trim, trim_seq};

verus! {

/// A parsed `uv.lock` file.
#[derive(Debug, Clone)]
pub struct UvLockFile {
    pub version: u32,
    pub revision: Option<u32>,
    pub requires_python: Option<String>,
    pub resolution_markers: Option<Vec<String>>,
    pub packages: Vec<UvPackage>,
}

/// One `[[package]]` entry of a `uv.lock` file.
#[derive(Debug, Clone)]
pub struct UvPackage {
    pub name: String,
    pub version: String,
    pub source: Option<UvSource>,
    pub dependencies: Option<Vec<UvDependency>>,
    pub sdist: Option<UvDistribution>,
    pub wheels: Option<Vec<UvDistribution>>,
}

/// Where a locked package comes from.
#[derive(Debug, Clone)]
pub struct UvSource {
    pub registry: Option<String>,
    pub git: Option<String>,
    pub path: Option<String>,
}

/// A dependency entry, either a bare name or a name with a marker.
#[derive(Debug, Clone)]
pub enum UvDependency {
    Simple(String),
    Complex { name: String, marker: Option<String> },
}

/// A distribution artifact of a locked package.
#[derive(Debug, Clone)]
pub struct UvDistribution {
    pub url: String,
    pub hash: String,
    pub size: Option<u64>,
    pub upload_time: Option<String>,
}

/// Namespace for the lock-file operations.
pub struct UvLockParser;

/// A locked package is usable when neither its name nor its version is
/// blank.
pub open spec fn usable_package(p: UvPackage) -> bool {
    trim_seq(p.name@).len() > 0 && trim_seq(p.version@).len() > 0
}

/// The (name, version) pairs of the usable packages, in lock-file order.
pub open spec fn extract_spec(pkgs: Seq<UvPackage>) -> Seq<(Seq<char>, Seq<char>)>
    decreases pkgs.len(),
{
    if pkgs.len() == 0 {
        Seq::empty()
    } else {
        extract_spec(pkgs.drop_last()) + if usable_package(pkgs.last()) {
            seq![(pkgs.last().name@, pkgs.last().version@)]
        } else {
            Seq::empty()
        }
    }
}

impl UvLockParser {
    /// The (name, version) pairs of the lock file's packages, skipping
    /// entries with a blank name or version.
    pub fn extract_packages(lock_file: &UvLockFile) -> (r: Vec<(String, String)>)
        ensures
            r@.map_values(|p: (String, String)| (p.0@, p.1@)) == extract_spec(
                lock_file.packages@,
            ),
    {
        let mut out: Vec<(String, String)> = Vec::new();
        let mut i: usize = 0;
        while i < lock_file.packages.len()
            invariant
                0 <= i <= lock_file.packages@.len(),
                out@.map_values(|p: (String, String)| (p.0@, p.1@)) == extract_spec(
                    lock_file.packages@.take(i as int),
                ),
            decreases lock_file.packages@.len() - i,
        {
            proof {
                assert(lock_file.packages@.take(i + 1).drop_last() =~= lock_file.packages@.take(
                    i as int,
                ));
                assert(lock_file.packages@.take(i + 1).last() == lock_file.packages@[i as int]);
            }
            let pkg = &lock_file.packages[i];
            let name_ok = trim(pkg.name.as_str()).unicode_len() > 0;
            let version_ok = trim(pkg.version.as_str()).unicode_len() > 0;
            if name_ok && version_ok {
                out.push((pkg.name.clone(), pkg.version.clone()));
                proof {
                    assert(out@.map_values(|p: (String, String)| (p.0@, p.1@)) =~= extract_spec(
                        lock_file.packages@.take(i + 1),
                    ));
                }
            } else {
                proof {
                    assert(out@.map_values(|p: (String, String)| (p.0@, p.1@)) =~= extract_spec(
                        lock_file.packages@.take(i + 1),
                    ));
                }
            }
            i = i + 1;
        }
        proof {
            assert(lock_file.packages@.take(lock_file.packages@.len() as int)
                =~= lock_file.packages@);
        }
        out
    }
}

} // verus!
