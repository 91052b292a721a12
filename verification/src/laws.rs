//! Laws of the interposer, proved over the step functions of the shadow
//! table and the serving functions of the fabricated stream.

use vstd::prelude::*;

use crate::config::{secret_content_spec, secret_name_spec, READ_ONLY_FLAGS};
use crate::paths::{base_name_spec, qualifies};
use crate::stream::{advanced_cursor, served_bytes, served_len};
use crate::table::{close_step, open_step, read_outcome, read_step};

verus! {

/// A file whose base name is not the target name never enters the shadow
/// table: its open leaves the table exactly as it was.
pub proof fn lemma_other_name_never_registered(
    t: Map<i32, usize>,
    path: Seq<u8>,
    flags: i32,
    fd: i32,
)
    requires
        base_name_spec(path) != secret_name_spec(),
    ensures
        open_step(t, path, flags, fd) == t,
{
}

/// An open of the target name in any mode other than exactly read-only
/// never enters the shadow table: its open leaves the table as it was.
pub proof fn lemma_non_readonly_never_registered(
    t: Map<i32, usize>,
    path: Seq<u8>,
    flags: i32,
    fd: i32,
)
    requires
        flags != READ_ONLY_FLAGS,
    ensures
        open_step(t, path, flags, fd) == t,
{
}

/// A failed open (negative descriptor) never touches the shadow table,
/// whatever the path and flags were.
pub proof fn lemma_failed_open_untouched(t: Map<i32, usize>, path: Seq<u8>, flags: i32, fd: i32)
    requires
        fd < 0,
    ensures
        open_step(t, path, flags, fd) == t,
{
}

/// A read on a descriptor that is not in the shadow table is delegated to
/// the real primitive and leaves the table exactly as it was.
pub proof fn lemma_unshadowed_read_delegates(t: Map<i32, usize>, fd: i32, requested: nat)
    requires
        !t.contains_key(fd),
    ensures
        read_outcome(t, fd, requested) is None,
        read_step(t, fd, requested) == t,
{
}

/// A qualifying successful open registers exactly the returned descriptor,
/// with its cursor at the start of the fabricated content.
pub proof fn lemma_qualifying_open_registers(
    t: Map<i32, usize>,
    path: Seq<u8>,
    flags: i32,
    fd: i32,
)
    requires
        qualifies(path, flags),
        fd >= 0,
    ensures
        open_step(t, path, flags, fd) == t.insert(fd, 0),
        open_step(t, path, flags, fd).contains_key(fd),
        open_step(t, path, flags, fd)[fd] == 0,
{
}

/// Splitting one read into two serves the same bytes: reading `first` bytes
/// and then `second` bytes from the advanced cursor yields exactly the bytes
/// of a single read of `first + second`, and lands the cursor on the same
/// position. Fabricated content is thus returned in order however a caller
/// splits its reads.
pub proof fn lemma_reads_concatenate(cursor: usize, first: nat, second: nat)
    ensures
        served_bytes(cursor as nat, first) + served_bytes(
            advanced_cursor(cursor, first) as nat,
            second,
        ) == served_bytes(cursor as nat, first + second),
        advanced_cursor(advanced_cursor(cursor, first), second) == advanced_cursor(
            cursor,
            first + second,
        ),
{
    let len = secret_content_spec().len();
    if cursor >= len {
        assert(served_bytes(cursor as nat, first) + served_bytes(
            advanced_cursor(cursor, first) as nat,
            second,
        ) =~= served_bytes(cursor as nat, first + second));
    } else {
        assert(served_bytes(cursor as nat, first) + served_bytes(
            advanced_cursor(cursor, first) as nat,
            second,
        ) =~= served_bytes(cursor as nat, first + second));
    }
}

/// The sum of a sequence of requested read lengths.
pub open spec fn total(requests: Seq<nat>) -> nat
    decreases requests.len(),
{
    if requests.len() == 0 {
        0
    } else {
        requests[0] + total(requests.skip(1))
    }
}

/// The bytes served by a run of reads of the given lengths, one after the
/// other, starting at `cursor`.
pub open spec fn served_all(cursor: usize, requests: Seq<nat>) -> Seq<u8>
    decreases requests.len(),
{
    if requests.len() == 0 {
        Seq::<u8>::empty()
    } else {
        served_bytes(cursor as nat, requests[0]) + served_all(
            advanced_cursor(cursor, requests[0]),
            requests.skip(1),
        )
    }
}

/// However a caller splits its reads, the run serves exactly the bytes of
/// one single read of the total requested length: the fabricated content
/// comes back in order, cut only where the requested lengths cut it.
pub proof fn lemma_split_reads_serve_in_order(cursor: usize, requests: Seq<nat>)
    ensures
        served_all(cursor, requests) == served_bytes(cursor as nat, total(requests)),
    decreases requests.len(),
{
    if requests.len() == 0 {
        assert(served_all(cursor, requests) =~= served_bytes(cursor as nat, 0));
    } else {
        let first = requests[0];
        let rest = requests.skip(1);
        lemma_split_reads_serve_in_order(advanced_cursor(cursor, first), rest);
        lemma_reads_concatenate(cursor, first, total(rest));
    }
}

/// A read never moves the cursor backwards, and never past the end of the
/// fabricated content unless it already was past it: the cursor of a
/// shadowed descriptor is monotonically non-decreasing over its lifetime.
pub proof fn lemma_cursor_monotone(cursor: usize, requested: nat)
    ensures
        advanced_cursor(cursor, requested) >= cursor,
        cursor <= secret_content_spec().len() ==> advanced_cursor(cursor, requested)
            <= secret_content_spec().len(),
        cursor > secret_content_spec().len() ==> advanced_cursor(cursor, requested) == cursor,
{
}

/// Once the cursor is at or past the end of the fabricated content, every
/// further read serves zero bytes and the cursor stays where it is.
pub proof fn lemma_exhausted_read_serves_nothing(cursor: usize, requested: nat)
    requires
        cursor >= secret_content_spec().len(),
    ensures
        served_bytes(cursor as nat, requested) == Seq::<u8>::empty(),
        served_len(cursor as nat, requested) == 0,
        advanced_cursor(cursor, requested) == cursor,
{
}

/// A single read from the start of the stream that requests at least the
/// whole fabricated content is served exactly the fabricated content.
pub proof fn lemma_first_read_serves_whole_content(requested: nat)
    requires
        requested >= secret_content_spec().len(),
    ensures
        served_bytes(0, requested) == secret_content_spec(),
{
    assert(served_bytes(0, requested) =~= secret_content_spec());
}

/// Closing a descriptor that the table did not hold before it was opened
/// restores the table exactly: one qualifying open followed by one
/// successful close is a no-op on the shadow table, and so is the pair for
/// any non-qualifying open.
pub proof fn lemma_open_close_round_trip(t: Map<i32, usize>, path: Seq<u8>, flags: i32, fd: i32)
    requires
        !t.contains_key(fd),
    ensures
        close_step(open_step(t, path, flags, fd), fd, 0) == t,
{
    if fd >= 0 && qualifies(path, flags) {
        assert(t.insert(fd, 0).remove(fd) =~= t);
    } else {
        assert(t.remove(fd) =~= t);
    }
}

/// The table after opening `path` with `flags` once for each descriptor of
/// `fds` in turn, each open reported successful with that descriptor.
pub open spec fn open_all(t: Map<i32, usize>, path: Seq<u8>, flags: i32, fds: Seq<i32>) -> Map<
    i32,
    usize,
>
    decreases fds.len(),
{
    if fds.len() == 0 {
        t
    } else {
        open_all(open_step(t, path, flags, fds[0]), path, flags, fds.skip(1))
    }
}

/// The table after closing each descriptor of `fds` in turn, each close
/// reported successful.
pub open spec fn close_all(t: Map<i32, usize>, fds: Seq<i32>) -> Map<i32, usize>
    decreases fds.len(),
{
    if fds.len() == 0 {
        t
    } else {
        close_all(close_step(t, fds[0], 0), fds.skip(1))
    }
}

/// Removing a descriptor that none of the opens registers commutes with the
/// whole run of opens.
proof fn lemma_remove_commutes_with_opens(
    t: Map<i32, usize>,
    path: Seq<u8>,
    flags: i32,
    fds: Seq<i32>,
    k: i32,
)
    requires
        !fds.contains(k),
    ensures
        open_all(t, path, flags, fds).remove(k) == open_all(t.remove(k), path, flags, fds),
    decreases fds.len(),
{
    if fds.len() > 0 {
        let rest = fds.skip(1);
        assert(!rest.contains(k)) by {
            if rest.contains(k) {
                let j = choose|j: int| 0 <= j < rest.len() && rest[j] == k;
                assert(fds[j + 1] == k);
            }
        }
        lemma_remove_commutes_with_opens(open_step(t, path, flags, fds[0]), path, flags, rest, k);
        assert(fds[0] != k) by {
            assert(fds.contains(k) == (exists|i: int| 0 <= i < fds.len() && fds[i] == k));
        }
        assert(open_step(t, path, flags, fds[0]).remove(k) == open_step(
            t.remove(k),
            path,
            flags,
            fds[0],
        )) by {
            if fds[0] >= 0 && qualifies(path, flags) {
                assert(t.insert(fds[0], 0).remove(k) =~= t.remove(k).insert(fds[0], 0));
            }
        }
    }
}

/// N qualifying opens of distinct fresh descriptors followed by N matching
/// successful closes restore the shadow table exactly, so its size after the
/// closes equals its size before the first open.
pub proof fn lemma_shadow_count_restored(
    t: Map<i32, usize>,
    path: Seq<u8>,
    flags: i32,
    fds: Seq<i32>,
)
    requires
        fds.no_duplicates(),
        forall|i: int| 0 <= i < fds.len() ==> !t.contains_key(#[trigger] fds[i]),
    ensures
        close_all(open_all(t, path, flags, fds), fds) == t,
        close_all(open_all(t, path, flags, fds), fds).len() == t.len(),
    decreases fds.len(),
{
    if fds.len() > 0 {
        let f0 = fds[0];
        let rest = fds.skip(1);
        assert(!rest.contains(f0)) by {
            if rest.contains(f0) {
                let j = choose|j: int| 0 <= j < rest.len() && rest[j] == f0;
                assert(fds[j + 1] == f0);
                assert(fds[0] == fds[j + 1] && 0 != j + 1);
            }
        }
        let after_first = open_step(t, path, flags, f0);
        assert(open_all(t, path, flags, fds) == open_all(after_first, path, flags, rest));
        lemma_remove_commutes_with_opens(after_first, path, flags, rest, f0);
        assert(after_first.remove(f0) =~= t) by {
            if f0 >= 0 && qualifies(path, flags) {
                assert(t.insert(f0, 0).remove(f0) =~= t);
            } else {
                assert(t.remove(f0) =~= t);
            }
        }
        assert(open_all(t, path, flags, fds).remove(f0) == open_all(t, path, flags, rest));
        assert(close_all(open_all(t, path, flags, fds), fds) == close_all(
            open_all(t, path, flags, rest),
            rest,
        ));
        assert(rest.no_duplicates()) by {
            assert(forall|i: int, j: int|
                0 <= i < j < rest.len() ==> rest[i] == fds[i + 1] && rest[j] == fds[j + 1]);
        }
        assert(forall|i: int| 0 <= i < rest.len() ==> !t.contains_key(#[trigger] rest[i])) by {
            assert(forall|i: int| 0 <= i < rest.len() ==> rest[i] == fds[i + 1]);
        }
        lemma_shadow_count_restored(t, path, flags, rest);
    }
}

} // verus!
