//! File-descriptor entry points whose decisions this layer owns: the fd
//! table checks of read and write, descriptor allocation on open, and close.
//!
//! The bytes themselves move through the external filesystem and the address
//! translation layer; this module decides, from the fd table alone, whether
//! a call is admitted, and hands back the externally produced transfer count.

use crate::model::{first_free, lemma_first_free_is};
use crate::process::find_free_slot;
use vstd::prelude::*;

verus! {

/// An open file description as the fd table sees it: the access mode fixed
/// when the file was opened.  The contents live in the external filesystem.
#[derive(Clone, Copy, PartialEq, Eq, Structural, Debug)]
pub struct OpenFile {
    pub readable: bool,
    pub writable: bool,
}

/// Result of a write call: `-1` when `fd` is out of range, names no open
/// file, or names one not opened for writing; otherwise the count of bytes
/// the external file object reported written.
pub open spec fn spec_sys_write(table: Seq<Option<OpenFile>>, fd: int, written: usize) -> int {
    if fd < 0 || fd >= table.len() {
        -1
    } else if table[fd] is None {
        -1
    } else if !table[fd]->0.writable {
        -1
    } else {
        written as int
    }
}

/// Result of a read call, mirroring [`spec_sys_write`] with the readable
/// mode.
pub open spec fn spec_sys_read(table: Seq<Option<OpenFile>>, fd: int, count: usize) -> int {
    if fd < 0 || fd >= table.len() {
        -1
    } else if table[fd] is None {
        -1
    } else if !table[fd]->0.readable {
        -1
    } else {
        count as int
    }
}

/// Write through descriptor `fd`.  The fd table decides admission; the byte
/// transfer itself is the external file object's work, and `written` is the
/// count it reported.
pub fn sys_write(fd_table: &Vec<Option<OpenFile>>, fd: usize, written: usize) -> (r: isize)
    requires
        written <= isize::MAX,
    ensures
        r == spec_sys_write(fd_table@, fd as int, written),
{
    if fd >= fd_table.len() {
        return -1;
    }
    match &fd_table[fd] {
        Some(file) => {
            if !file.writable {
                return -1;
            }
            written as isize
        },
        None => -1,
    }
}

/// Read through descriptor `fd`; see [`sys_write`].  `count` is the byte
/// count the external file object reported read.
pub fn sys_read(fd_table: &Vec<Option<OpenFile>>, fd: usize, count: usize) -> (r: isize)
    requires
        count <= isize::MAX,
    ensures
        r == spec_sys_read(fd_table@, fd as int, count),
{
    if fd >= fd_table.len() {
        return -1;
    }
    match &fd_table[fd] {
        Some(file) => {
            if !file.readable {
                return -1;
            }
            count as isize
        },
        None => -1,
    }
}

/// Install an externally opened file in the fd table.  When the external
/// open failed (`None`), returns `-1` and changes nothing.  Otherwise the
/// file takes the lowest-numbered free descriptor — appended when the table
/// is full — and that descriptor is returned.
pub fn sys_open(fd_table: &mut Vec<Option<OpenFile>>, opened: Option<OpenFile>) -> (r: isize)
    requires
        old(fd_table)@.len() < isize::MAX,
    ensures
        opened is None ==> r == -1 && final(fd_table)@ == old(fd_table)@,
        opened matches Some(f) ==> {
            &&& r == first_free(old(fd_table)@)
            &&& (r == old(fd_table)@.len() ==> final(fd_table)@ == old(fd_table)@.push(Some(f)))
            &&& (r < old(fd_table)@.len() ==> final(fd_table)@ == old(fd_table)@.update(
                r as int,
                Some(f),
            ))
        },
{
    match opened {
        None => -1,
        Some(file) => {
            let fd = find_free_slot(fd_table);
            proof {
                lemma_first_free_is(old(fd_table)@, fd as int);
            }
            if fd < fd_table.len() {
                fd_table.set(fd, Some(file));
            } else {
                fd_table.push(Some(file));
            }
            fd as isize
        },
    }
}

/// Close descriptor `fd`: `-1` when it is out of range or already closed,
/// else the slot is emptied (and becomes reusable) and `0` is returned.
pub fn sys_close(fd_table: &mut Vec<Option<OpenFile>>, fd: usize) -> (r: isize)
    ensures
        fd < old(fd_table)@.len() && old(fd_table)@[fd as int] is Some ==> r == 0 && final(fd_table)@ == old(fd_table)@.update(fd as int, None),
        !(fd < old(fd_table)@.len() && old(fd_table)@[fd as int] is Some) ==> r == -1 && final(fd_table)@ == old(fd_table)@,
{
    if fd >= fd_table.len() {
        return -1;
    }
    if fd_table[fd].is_none() {
        return -1;
    }
    fd_table.set(fd, None);
    0
}

} // verus!
