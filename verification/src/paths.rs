//! Base-name extraction and the open-time shadowing decision.
//!
//! A descriptor qualifies for shadowing exactly when the final component of
//! the opened path (the text after the last separator) equals the configured
//! target name and the requested access mode is exactly read-only.

use vstd::prelude::*;

use crate::config::{secret_name_spec, READ_ONLY_FLAGS, SEPARATOR};

verus! {

/// The final path component: the suffix of `s` after its last separator
/// byte, or all of `s` if it holds no separator.
pub open spec fn base_name_spec(s: Seq<u8>) -> Seq<u8>
    decreases s.len(),
{
    if s.len() == 0 {
        s
    } else if s.last() == SEPARATOR {
        Seq::<u8>::empty()
    } else {
        base_name_spec(s.drop_last()).push(s.last())
    }
}

/// A qualifying open: the path's base name is the target name and the
/// requested mode is exactly read-only.
pub open spec fn qualifies(path: Seq<u8>, flags: i32) -> bool {
    base_name_spec(path) == secret_name_spec() && flags == READ_ONLY_FLAGS
}

/// The final path component of `path`.
pub fn base_name(path: &[u8]) -> (r: Vec<u8>)
    ensures
        r@ == base_name_spec(path@),
{
    let mut start: usize = 0;
    let mut i: usize = 0;
    while i < path.len()
        invariant
            start <= i <= path.len(),
            base_name_spec(path@.take(i as int)) == path@.subrange(start as int, i as int),
        decreases path.len() - i,
    {
        proof {
            assert(path@.take(i + 1).last() == path@[i as int]);
            assert(path@.take(i + 1).drop_last() =~= path@.take(i as int));
        }
        if path[i] == SEPARATOR {
            start = i + 1;
            proof {
                assert(base_name_spec(path@.take(i + 1)) =~= path@.subrange(
                    start as int,
                    i + 1,
                ));
            }
        } else {
            proof {
                assert(base_name_spec(path@.take(i + 1)) =~= path@.subrange(
                    start as int,
                    i + 1,
                ));
            }
        }
        i = i + 1;
    }
    proof {
        assert(path@.take(path@.len() as int) =~= path@);
    }
    let mut r: Vec<u8> = Vec::new();
    let mut j: usize = start;
    while j < path.len()
        invariant
            start <= j <= path.len(),
            r@ =~= path@.subrange(start as int, j as int),
        decreases path.len() - j,
    {
        r.push(path[j]);
        j = j + 1;
    }
    proof {
        assert(r@ =~= path@.subrange(start as int, path@.len() as int));
    }
    r
}

/// Byte-for-byte equality of two byte strings.
pub fn bytes_eq(a: &[u8], b: &[u8]) -> (r: bool)
    ensures
        r == (a@ == b@),
{
    if a.len() != b.len() {
        return false;
    }
    let mut i: usize = 0;
    while i < a.len()
        invariant
            i <= a.len(),
            a@.len() == b@.len(),
            forall|k: int| 0 <= k < i ==> a@[k] == b@[k],
        decreases a.len() - i,
    {
        if a[i] != b[i] {
            return false;
        }
        i = i + 1;
    }
    proof {
        assert(a@ =~= b@);
    }
    true
}

/// Decides, from the opened path and the caller's flags, whether a freshly
/// opened descriptor for that path is to be shadowed.
pub fn should_shadow(path: &[u8], flags: i32) -> (r: bool)
    ensures
        r == qualifies(path@, flags),
{
    if flags != READ_ONLY_FLAGS {
        return false;
    }
    let name = base_name(path);
    let target = crate::config::secret_name();
    bytes_eq(name.as_slice(), target.as_slice())
}

} // verus!
