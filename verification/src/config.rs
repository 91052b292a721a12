//! The fixed configuration of the interposer: the base name of the one file
//! whose content is shadowed, the fabricated bytes served in its place, and
//! the flag value that marks a pure read-only open.

use vstd::prelude::*;

verus! {

/// The open-flags value that means "read-only, and nothing else" on the
/// platforms this interposer targets. Shadowing happens only when the caller
/// requests exactly this access mode.
pub const READ_ONLY_FLAGS: i32 = 0;

/// The byte value of the path separator `/`.
pub const SEPARATOR: u8 = 47;

/// The base name of the shadowed file, as a byte sequence: `secret.txt`.
pub open spec fn secret_name_spec() -> Seq<u8> {
    seq![115u8, 101u8, 99u8, 114u8, 101u8, 116u8, 46u8, 116u8, 120u8, 116u8]
}

/// The fabricated content served in place of the real file: `Secret!`.
pub open spec fn secret_content_spec() -> Seq<u8> {
    seq![83u8, 101u8, 99u8, 114u8, 101u8, 116u8, 33u8]
}

/// The base name of the shadowed file, as runtime bytes.
pub fn secret_name() -> (r: Vec<u8>)
    ensures
        r@ == secret_name_spec(),
{
    let mut r: Vec<u8> = Vec::new();
    r.push(115);
    r.push(101);
    r.push(99);
    r.push(114);
    r.push(101);
    r.push(116);
    r.push(46);
    r.push(116);
    r.push(120);
    r.push(116);
    proof {
        assert(r@ =~= secret_name_spec());
    }
    r
}

/// The fabricated content, as runtime bytes.
pub fn secret_content() -> (r: Vec<u8>)
    ensures
        r@ == secret_content_spec(),
{
    let mut r: Vec<u8> = Vec::new();
    r.push(83);
    r.push(101);
    r.push(99);
    r.push(114);
    r.push(101);
    r.push(116);
    r.push(33);
    proof {
        assert(r@ =~= secret_content_spec());
    }
    r
}

} // verus!
