//! Filesystem paths, held as text and handled by `std::path`'s rules for the
//! platform the crate is built for.

use vstd::prelude::*;

verus! {

/// `Path::is_absolute` of the path written `p`.
pub uninterp spec fn path_is_absolute(p: Seq<char>) -> bool;

/// The text of `Path::join(base, p)`.
pub uninterp spec fn path_join(base: Seq<char>, p: Seq<char>) -> Seq<char>;

/// The text of `Path::parent(p)`, where there is one.
pub uninterp spec fn path_parent(p: Seq<char>) -> Option<Seq<char>>;

/// `Path::ends_with(p, child)`: whether the last components of `p` are those
/// of `child`.
pub uninterp spec fn path_ends_with(p: Seq<char>, child: Seq<char>) -> bool;

/// `std::path::Path::is_absolute`. The result is named; it follows the path
/// rules of the target platform.
#[verifier::external_body]
pub(crate) fn is_absolute(p: &str) -> (r: bool)
    ensures
        r == path_is_absolute(p@),
{
    std::path::Path::new(p).is_absolute()
}

/// `std::path::Path::join`, read back as text. As its documentation says, an
/// absolute `p` replaces `base`; otherwise the result is only named.
#[verifier::external_body]
pub(crate) fn join(base: &str, p: &str) -> (r: String)
    ensures
        r@ == path_join(base@, p@),
        path_is_absolute(p@) ==> r@ == p@,
{
    std::path::Path::new(base).join(p).to_string_lossy().into_owned()
}

/// `std::path::Path::parent`, read back as text. As its documentation says,
/// the empty path has no parent, and a parent is the path without its final
/// component, so it is shorter; what it is beyond that is only named.
#[verifier::external_body]
pub(crate) fn parent(p: &str) -> (r: Option<String>)
    ensures
        r matches Some(q) ==> path_parent(p@) == Some(q@) && q@.len() < p@.len(),
        r is None ==> path_parent(p@) is None,
        p@.len() == 0 ==> r is None,
{
    std::path::Path::new(p).parent().map(|q| q.to_string_lossy().into_owned())
}

/// `std::path::Path::ends_with`: whether the trailing components of `p` are
/// those of `child`. The result is named.
#[verifier::external_body]
pub(crate) fn ends_with(p: &str, child: &str) -> (r: bool)
    ensures
        r == path_ends_with(p@, child@),
{
    std::path::Path::new(p).ends_with(child)
}

/// Where `path` points when it is read relative to `base`.
pub open spec fn resolved(base: Seq<char>, path: Seq<char>) -> Seq<char> {
    if path_is_absolute(path) {
        path
    } else {
        path_join(base, path)
    }
}

/// An absolute `path` as it is; a relative one joined onto `base`.
pub fn resolve(base: &str, path: &str) -> (r: String)
    ensures
        r@ == resolved(base@, path@),
{
    if is_absolute(path) {
        path.to_owned()
    } else {
        join(base, path)
    }
}

/// The text of `p`'s parent after `k` steps up, where there is one.
pub open spec fn ancestor(p: Seq<char>, k: nat) -> Option<Seq<char>>
    decreases k,
{
    if k == 0 {
        Some(p)
    } else {
        match ancestor(p, (k - 1) as nat) {
            Some(q) => path_parent(q),
            None => None,
        }
    }
}

/// Whether `is_present` reported each of `dir` and its first `k` ancestors
/// absent, each of those ancestors being a non-empty path.
pub open spec fn reported_missing<F: Fn(&str) -> bool>(is_present: F, dir: Seq<char>, k: nat) -> bool {
    forall|j: nat|
        #![trigger ancestor(dir, j)]
        j <= k ==> exists|s: &str|
            #![trigger is_present.ensures((s,), false)]
            ancestor(dir, j) == Some(s@) && is_present.ensures((s,), false) && (j == 0 || s@.len()
                > 0)
}

/// The highest directory that creating `dir` would create: `None` where
/// `is_present` reports `dir` present; else, climbing from `dir` through its
/// parents, the last one before a parent that is empty, absent or reported
/// present (`dir` itself included), so never the empty path unless `dir`
/// is. Removing it undoes the creation.
/// `is_present` is asked about `dir` first, then about each parent in turn;
/// its answers may change from call to call.
pub fn highest_missing_dir<F: Fn(&str) -> bool>(dir: &str, is_present: F) -> (r: Option<String>)
    requires
        forall|s: &str| is_present.requires((s,)),
    ensures
        r is None ==> is_present.ensures((dir,), true),
        r matches Some(h) ==> {
            &&& is_present.ensures((dir,), false)
            &&& exists|k: nat|
                ancestor(dir@, k) == Some(h@) && reported_missing(is_present, dir@, k)
            &&& h@.len() > 0 || h@ == dir@
            &&& match path_parent(h@) {
                None => true,
                Some(q) => q.len() == 0 || exists|s: &str|
                    #![trigger is_present.ensures((s,), true)]
                    s@ == q && is_present.ensures((s,), true),
            }
        },
{
    if is_present(dir) {
        return None;
    }
    let mut highest = dir.to_owned();
    let ghost mut steps: nat = 0;
    assert(ancestor(dir@, 0) == Some(dir@) && is_present.ensures((dir,), false));
    loop
        invariant
            forall|s: &str| is_present.requires((s,)),
            is_present.ensures((dir,), false),
            ancestor(dir@, steps) == Some(highest@),
            reported_missing(is_present, dir@, steps),
            highest@.len() > 0 || highest@ == dir@,
        decreases highest@.len(),
    {
        match parent(highest.as_str()) {
            Some(up) => {
                let u = up.as_str();
                if u.is_empty() || is_present(u) {
                    assert(ancestor(dir@, steps) == Some(highest@));
                    return Some(highest);
                }
                proof {
                    assert(ancestor(dir@, steps + 1) == Some(u@));
                    assert forall|j: nat| #![trigger ancestor(dir@, j)] j <= steps + 1 implies exists|s: &str|
                        #![trigger is_present.ensures((s,), false)]
                        ancestor(dir@, j) == Some(s@) && is_present.ensures((s,), false) && (j == 0
                            || s@.len() > 0) by {
                        if j == steps + 1 {
                            assert(ancestor(dir@, j) == Some(u@) && is_present.ensures((u,), false)
                                && u@.len() > 0);
                        }
                    }
                    steps = steps + 1;
                }
                highest = up;
            },
            None => {
                return Some(highest);
            },
        }
    }
}

} // verus!

verus! {

/// An absolute path resolves to itself, whatever the base.
pub proof fn absolute_path_resolves_to_itself(base: Seq<char>, path: Seq<char>)
    requires
        path_is_absolute(path),
    ensures
        resolved(base, path) == path,
{
}

} // verus!
