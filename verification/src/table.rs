//! The shadow table and the per-call decisions of the interposer.
//!
//! An [`Interposer`] maps each shadowed descriptor to its read cursor into
//! the fabricated content. The surrounding layer forwards every call to the
//! real primitive and reports the plain outcome here: the descriptor a real
//! open returned, the status a real close returned, a read request before it
//! is delegated. Each transition is stated by a step function over the
//! table's mathematical view, so that laws about whole call sequences can be
//! proved once, over the step functions alone.

use vstd::prelude::*;

use std::collections::HashMap;

use crate::paths::{qualifies, should_shadow};
use crate::stream::{advanced_cursor, served_bytes, serve_read};

verus! {

broadcast use vstd::std_specs::hash::group_hash_axioms;

/// The table after the real open of `path` with `flags` returned `fd`: a
/// qualifying successful open registers the descriptor with cursor 0; every
/// other open leaves the table untouched.
pub open spec fn open_step(t: Map<i32, usize>, path: Seq<u8>, flags: i32, fd: i32) -> Map<
    i32,
    usize,
> {
    if fd >= 0 && qualifies(path, flags) {
        t.insert(fd, 0)
    } else {
        t
    }
}

/// The table after a read of `requested` bytes on `fd`: a shadowed
/// descriptor's cursor advances by the number of bytes served; an unshadowed
/// descriptor leaves the table untouched.
pub open spec fn read_step(t: Map<i32, usize>, fd: i32, requested: nat) -> Map<i32, usize> {
    if t.contains_key(fd) {
        t.insert(fd, advanced_cursor(t[fd], requested))
    } else {
        t
    }
}

/// The bytes a read of `requested` bytes on `fd` serves from the fabricated
/// content, or `None` where the read is delegated to the real primitive.
pub open spec fn read_outcome(t: Map<i32, usize>, fd: i32, requested: nat) -> Option<Seq<u8>> {
    if t.contains_key(fd) {
        Some(served_bytes(t[fd] as nat, requested))
    } else {
        None
    }
}

/// The table after the real close of `fd` returned `status`: a successful
/// close removes any entry for the descriptor; a failed close leaves the
/// table untouched.
pub open spec fn close_step(t: Map<i32, usize>, fd: i32, status: i32) -> Map<i32, usize> {
    if status == 0 {
        t.remove(fd)
    } else {
        t
    }
}

/// The shadow table: which open descriptors are currently served fabricated
/// content, and how far into that content each one has read.
pub struct Interposer {
    table: HashMap<i32, usize>,
}

impl View for Interposer {
    type V = Map<i32, usize>;

    closed spec fn view(&self) -> Map<i32, usize> {
        self.table@
    }
}

impl Interposer {
    /// A fresh interposer: no descriptor is shadowed.
    pub fn new() -> (r: Self)
        ensures
            r@ == Map::<i32, usize>::empty(),
    {
        Interposer { table: HashMap::new() }
    }

    /// Records the outcome of an open call: the real open of `path` with
    /// `flags` returned `fd`. Registers the descriptor with cursor 0 exactly
    /// when the open succeeded, the path's base name is the target name, and
    /// the mode is exactly read-only.
    pub fn on_open(&mut self, path: &[u8], flags: i32, fd: i32)
        ensures
            final(self)@ == open_step(old(self)@, path@, flags, fd),
    {
        if fd >= 0 && should_shadow(path, flags) {
            self.table.insert(fd, 0);
        }
    }

    /// Decides a read of `requested` bytes on `fd`: returns the fabricated
    /// bytes to hand the caller where the descriptor is shadowed, advancing
    /// its cursor, and `None` where the read is to be delegated to the real
    /// primitive, the table untouched.
    pub fn on_read(&mut self, fd: i32, requested: usize) -> (r: Option<Vec<u8>>)
        ensures
            final(self)@ == read_step(old(self)@, fd, requested as nat),
            match r {
                Some(bytes) => read_outcome(old(self)@, fd, requested as nat) == Some(bytes@),
                None => read_outcome(old(self)@, fd, requested as nat) is None,
            },
    {
        let cursor_now = match self.table.get(&fd) {
            Some(c) => Some(*c),
            None => None,
        };
        match cursor_now {
            Some(cursor) => {
                let (bytes, new_cursor) = serve_read(cursor, requested);
                self.table.insert(fd, new_cursor);
                Some(bytes)
            },
            None => None,
        }
    }

    /// Records the outcome of a close call: the real close of `fd` returned
    /// `status`. On success (status 0) any entry for the descriptor is
    /// removed; on failure the table is left intact.
    pub fn on_close(&mut self, fd: i32, status: i32)
        ensures
            final(self)@ == close_step(old(self)@, fd, status),
    {
        if status == 0 {
            self.table.remove(&fd);
        }
    }

    /// Whether `fd` is currently shadowed.
    pub fn is_shadowed(&self, fd: i32) -> (r: bool)
        ensures
            r == self@.contains_key(fd),
    {
        self.table.contains_key(&fd)
    }

    /// The current read cursor of `fd`, or `None` if it is not shadowed.
    pub fn cursor_of(&self, fd: i32) -> (r: Option<usize>)
        ensures
            r == (if self@.contains_key(fd) {
                Some(self@[fd])
            } else {
                None::<usize>
            }),
    {
        match self.table.get(&fd) {
            Some(c) => Some(*c),
            None => None,
        }
    }

    /// How many descriptors are currently shadowed.
    pub fn shadow_count(&self) -> (r: usize)
        ensures
            r == self@.len(),
    {
        self.table.len()
    }
}

} // verus!
