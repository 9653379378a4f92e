//! Classifying a file's path: the release version encoded in one of its
//! components, and the template file that is never a fragment.

use vstd::prelude::*;

use crate::error::VersionError;
use crate::version::{semver_of, Version};

verus! {

/// What scanning a path's components for a version yields.
pub ghost enum ScanSpec {
    /// A component that is not valid UTF-8 stands before any version-like
    /// component.
    NotUtf8,
    /// No component parses as a version: the file is not a fragment
    /// candidate, which is a skip, not an error.
    NoVersion,
    /// The text of the first component that parses as a version.
    Found { text: Seq<char> },
}

/// Scans a path's components root to leaf. The first component that parses
/// as a semantic version wins, whatever its depth; components that do not
/// parse are ordinary directory names and are passed over; a non-UTF-8
/// component (`None`) encountered before any version fails the scan.
pub open spec fn scan_spec(comps: Seq<Option<String>>) -> ScanSpec
    decreases comps.len(),
{
    if comps.len() == 0 {
        ScanSpec::NoVersion
    } else {
        match comps[0] {
            Option::None => ScanSpec::NotUtf8,
            Option::Some(s) => if semver_of(s@) is Some {
                ScanSpec::Found { text: s@ }
            } else {
                scan_spec(comps.skip(1))
            },
        }
    }
}

pub open spec fn get_version_matches(
    comps: Seq<Option<String>>,
    path: Seq<char>,
    r: Result<Option<Version>, VersionError>,
) -> bool {
    match scan_spec(comps) {
        ScanSpec::NotUtf8 => r matches Err(VersionError::Utf8(p)) && p@ == path,
        ScanSpec::NoVersion => r matches Ok(o) && o is None,
        ScanSpec::Found { text } => r matches Ok(o) && o matches Some(v) && v.wf() && v.text@
            == text,
    }
}

/// Finds the release version a path's components encode, if any.
///
/// `components` holds the path's components root to leaf, `None` standing
/// for one that is not valid UTF-8; `path` is the whole path's text, carried
/// into the error should the scan fail.
pub fn get_version_from_path(components: &Vec<Option<String>>, path: &String) -> (r: Result<
    Option<Version>,
    VersionError,
>)
    ensures
        get_version_matches(components@, path@, r),
{
    let ghost comps = components@;
    let mut i: usize = 0;
    proof {
        assert(comps.skip(0) =~= comps);
    }
    while i < components.len()
        invariant
            i <= comps.len(),
            comps == components@,
            scan_spec(comps) == scan_spec(comps.skip(i as int)),
        decreases comps.len() - i,
    {
        proof {
            assert(comps.skip(i as int)[0] == comps[i as int]);
            assert(comps.skip(i as int).skip(1) =~= comps.skip(i as int + 1));
        }
        match &components[i] {
            None => {
                return Err(VersionError::Utf8(path.clone()));
            },
            Some(s) => {
                match Version::parse(s.as_str()) {
                    Some(v) => {
                        return Ok(Some(v));
                    },
                    None => {},
                }
            },
        }
        i = i + 1;
    }
    proof {
        assert(comps.skip(i as int) =~= Seq::<Option<String>>::empty());
    }
    Ok(None)
}

/// A path with no version-like component yields "no version", never an
/// error: such files are skipped, not reported.
pub proof fn lemma_no_version_components(comps: Seq<Option<String>>)
    requires
        forall|k: int|
            0 <= k < comps.len() ==> match #[trigger] comps[k] {
                Option::Some(s) => semver_of(s@) is None,
                Option::None => false,
            },
    ensures
        scan_spec(comps) is NoVersion,
    decreases comps.len(),
{
    if comps.len() > 0 {
        lemma_no_version_components(comps.skip(1));
    }
}

/// A path with exactly one version-like component, at whatever depth, yields
/// exactly that component's version.
pub proof fn lemma_one_version_component(comps: Seq<Option<String>>, idx: int)
    requires
        0 <= idx < comps.len(),
        forall|k: int|
            0 <= k < comps.len() && k != idx ==> match #[trigger] comps[k] {
                Option::Some(s) => semver_of(s@) is None,
                Option::None => false,
            },
        comps[idx] matches Some(s) && semver_of(s@) is Some,
    ensures
        scan_spec(comps) matches ScanSpec::Found { text } && comps[idx] matches Some(s) && text
            == s@,
    decreases comps.len(),
{
    if idx > 0 {
        assert(comps.skip(1)[idx - 1] == comps[idx]);
        assert(forall|k: int| 0 <= k < comps.skip(1).len() ==> comps.skip(1)[k] == comps[k + 1]);
        lemma_one_version_component(comps.skip(1), idx - 1);
    }
}

/// The name of the template file, which is never a fragment candidate.
pub open spec fn template_name() -> Seq<char> {
    "template.md"@
}

/// A path whose last component is the template file's name.
pub open spec fn spec_is_template(comps: Seq<Option<String>>) -> bool {
    comps.len() > 0 && match comps[comps.len() - 1] {
        Option::Some(s) => s@ == template_name(),
        Option::None => false,
    }
}

/// Tells whether a path names the template file.
pub fn is_template_path(components: &Vec<Option<String>>) -> (r: bool)
    ensures
        r == spec_is_template(components@),
{
    if components.len() == 0 {
        return false;
    }
    match &components[components.len() - 1] {
        None => false,
        Some(s) => {
            let t = "template.md".to_owned();
            s.eq(&t)
        },
    }
}

} // verus!
