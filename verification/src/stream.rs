//! Serving fabricated bytes with stream semantics: position tracking,
//! end-of-stream, and partial reads.
//!
//! A shadowed descriptor carries a cursor into the fabricated content. A
//! read serves `min(requested, remaining)` bytes from the cursor onward and
//! advances the cursor by that amount; once the cursor is at or past the end
//! of the content, every read serves zero bytes.

use vstd::prelude::*;

use crate::config::{secret_content, secret_content_spec};

verus! {

/// How many bytes a read of `requested` bytes at position `cursor` serves:
/// `min(requested, remaining)`, or 0 once the content is exhausted.
pub open spec fn served_len(cursor: nat, requested: nat) -> nat {
    if cursor >= secret_content_spec().len() {
        0
    } else if requested <= secret_content_spec().len() - cursor {
        requested
    } else {
        (secret_content_spec().len() - cursor) as nat
    }
}

/// The bytes a read of `requested` bytes at position `cursor` serves: the
/// slice of the fabricated content starting at the cursor, of length
/// `served_len`.
pub open spec fn served_bytes(cursor: nat, requested: nat) -> Seq<u8> {
    if cursor >= secret_content_spec().len() {
        Seq::<u8>::empty()
    } else {
        secret_content_spec().subrange(
            cursor as int,
            cursor + served_len(cursor, requested) as int,
        )
    }
}

/// The cursor position after a read of `requested` bytes at `cursor`.
/// The cast never truncates: a cursor below the content length advances at
/// most to the content length, and any other cursor stays where it is.
pub open spec fn advanced_cursor(cursor: usize, requested: nat) -> usize {
    (cursor + served_len(cursor as nat, requested)) as usize
}

/// Serves one read on a shadowed descriptor: returns the served bytes and
/// the new cursor position.
pub fn serve_read(cursor: usize, requested: usize) -> (r: (Vec<u8>, usize))
    ensures
        r.0@ == served_bytes(cursor as nat, requested as nat),
        r.1 == advanced_cursor(cursor, requested as nat),
        r.0@.len() <= requested,
{
    let content = secret_content();
    if cursor >= content.len() {
        let out: Vec<u8> = Vec::new();
        proof {
            assert(out@ =~= served_bytes(cursor as nat, requested as nat));
        }
        return (out, cursor);
    }
    let remaining = content.len() - cursor;
    let n = if requested < remaining {
        requested
    } else {
        remaining
    };
    let mut out: Vec<u8> = Vec::new();
    let mut i: usize = 0;
    while i < n
        invariant
            i <= n,
            cursor + n <= content.len(),
            content@ == secret_content_spec(),
            n == served_len(cursor as nat, requested as nat),
            out@ =~= content@.subrange(cursor as int, cursor + i),
        decreases n - i,
    {
        out.push(content[cursor + i]);
        proof {
            assert(out@ =~= content@.subrange(cursor as int, cursor + i + 1));
        }
        i = i + 1;
    }
    proof {
        assert(out@ =~= served_bytes(cursor as nat, requested as nat));
    }
    (out, cursor + n)
}

} // verus!
