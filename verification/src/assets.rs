//! The files embedded in the executable (fonts, icons).

use vstd::prelude::*;
use crate::text::chars_of;

verus! {

/// Whether `name` starts with `prefix` (`str::starts_with`).
pub open spec fn has_prefix(name: Seq<char>, prefix: Seq<char>) -> bool {
    prefix.len() <= name.len() && name.take(prefix.len() as int) == prefix
}

/// Whether `name` starts with `prefix`.
pub(crate) fn starts_with(name: &str, prefix: &str) -> (r: bool)
    ensures
        r == has_prefix(name@, prefix@),
{
    let a = chars_of(name);
    let b = chars_of(prefix);
    if b.len() > a.len() {
        return false;
    }
    let mut i: usize = 0;
    while i < b.len()
        invariant
            a@ == name@,
            b@ == prefix@,
            b.len() <= a.len(),
            i <= b.len(),
            forall|k: int| 0 <= k < i ==> a@[k] == b@[k],
        decreases b.len() - i,
    {
        if a[i] != b[i] {
            assert(name@.take(prefix@.len() as int)[i as int] != prefix@[i as int]);
            return false;
        }
        i += 1;
    }
    assert(name@.take(prefix@.len() as int) =~= prefix@);
    true
}

/// The names among the first `n` of `names` that start with `prefix`, in
/// order.
pub open spec fn listed_under(names: Seq<String>, prefix: Seq<char>, n: nat) -> Seq<Seq<char>>
    decreases n,
{
    if n == 0 {
        Seq::empty()
    } else {
        let before = listed_under(names, prefix, (n - 1) as nat);
        if has_prefix(names[n - 1]@, prefix) {
            before.push(names[n - 1]@)
        } else {
            before
        }
    }
}

/// The embedded files whose names start with `prefix`, in the order of
/// `names`.
pub fn assets_under(names: &[String], prefix: &str) -> (r: Vec<String>)
    ensures
        r@.len() == listed_under(names@, prefix@, names@.len()).len(),
        forall|k: int|
            0 <= k < r@.len() ==> #[trigger] r@[k]@ == listed_under(names@, prefix@, names@.len())[k],
{
    let mut out: Vec<String> = Vec::new();
    let mut k: usize = 0;
    while k < names.len()
        invariant
            k <= names@.len(),
            out@.len() == listed_under(names@, prefix@, k as nat).len(),
            forall|j: int|
                0 <= j < out@.len() ==> #[trigger] out@[j]@ == listed_under(names@, prefix@, k as nat)[j],
        decreases names@.len() - k,
    {
        if starts_with(names[k].as_str(), prefix) {
            out.push(names[k].clone());
        }
        k += 1;
    }
    out
}

} // verus!
