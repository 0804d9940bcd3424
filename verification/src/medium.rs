//! The medium an append-only log lies on.

use vstd::prelude::*;

use crate::bytes::{copy_bytes, extend};

verus! {

/// A byte medium that is appended to at its end and can be cut back.
pub trait LogMedium {
    /// The bytes on the medium.
    closed spec fn contents(&self) -> Seq<u8> {
        Seq::empty()
    }

    /// Where the next append writes.
    closed spec fn cursor(&self) -> int {
        0
    }

    /// Whether the medium can be relied on to be read and to move its cursor. One
    /// that says nothing of it may fail at any time.
    closed spec fn readable(&self) -> bool {
        false
    }

    /// Whether the medium can be relied on to be appended to and cut back. One that
    /// says nothing of it may fail at any time.
    closed spec fn writable(&self) -> bool {
        false
    }

    /// Every byte on the medium, or `None` where it cannot be read.
    fn read_all(&mut self) -> (r: Option<Vec<u8>>)
        ensures
            final(self).contents() == old(self).contents(),
            r matches Some(bytes) ==> bytes@ == old(self).contents(),
            old(self).readable() ==> r is Some && final(self).readable(),
            old(self).writable() ==> final(self).writable(),
    ;

    /// Writes `record` at the end and makes it durable. Where that fails, any
    /// part of the record may have been written.
    fn append(&mut self, record: &Vec<u8>) -> (ok: bool)
        requires
            old(self).cursor() == old(self).contents().len(),
        ensures
            final(self).contents().len() <= u64::MAX,
            ok ==> {
                &&& final(self).contents() == old(self).contents() + record@
                &&& final(self).cursor() == final(self).contents().len()
            },
            !ok ==> exists|cut: int|
                0 <= cut <= record@.len() && final(self).contents() == old(self).contents()
                    + #[trigger] record@.take(cut),
            old(self).writable() ==> ok && final(self).writable(),
    ;

    /// Cuts the medium back to its first `len` bytes.
    fn cut(&mut self, len: u64) -> (ok: bool)
        requires
            len <= old(self).contents().len(),
        ensures
            ok ==> final(self).contents() == old(self).contents().take(len as int),
            !ok ==> final(self).contents() == old(self).contents(),
            old(self).writable() ==> ok && final(self).writable(),
            old(self).readable() ==> final(self).readable(),
    ;

    /// Moves the cursor to `at`.
    fn seek(&mut self, at: u64) -> (ok: bool)
        ensures
            final(self).contents() == old(self).contents(),
            ok ==> final(self).cursor() == at,
            old(self).readable() ==> ok && final(self).readable(),
            old(self).writable() ==> final(self).writable(),
    ;
}

/// A log medium in memory. A read-only one refuses every change.
pub struct MemoryLog {
    bytes: Vec<u8>,
    at: u64,
    read_only: bool,
}

impl MemoryLog {
    /// The bytes on the medium.
    pub closed spec fn bytes_view(&self) -> Seq<u8> {
        self.bytes@
    }

    /// Whether the medium refuses every change.
    pub closed spec fn refuses(&self) -> bool {
        self.read_only
    }

    /// A medium that holds `bytes`.
    pub fn new(bytes: Vec<u8>, read_only: bool) -> (m: MemoryLog)
        ensures
            m.contents() == bytes@,
            m.refuses() == read_only,
    {
        MemoryLog { bytes, at: 0, read_only }
    }

    /// The bytes on the medium.
    pub fn into_bytes(self) -> (bytes: Vec<u8>)
        ensures
            bytes@ == self.contents(),
    {
        self.bytes
    }
}

impl LogMedium for MemoryLog {
    open spec fn contents(&self) -> Seq<u8> {
        self.bytes_view()
    }

    closed spec fn cursor(&self) -> int {
        self.at as int
    }

    open spec fn readable(&self) -> bool {
        true
    }

    open spec fn writable(&self) -> bool {
        !self.refuses()
    }

    fn read_all(&mut self) -> (r: Option<Vec<u8>>)
        ensures
            *final(self) == *old(self),
            r matches Some(bytes) && bytes@ == old(self).contents(),
    {
        Some(copy_bytes(self.bytes.as_slice()))
    }

    fn append(&mut self, record: &Vec<u8>) -> (ok: bool) {
        if self.read_only {
            assert(record@.take(0) =~= Seq::<u8>::empty());
            assert(self.contents() =~= old(self).contents() + record@.take(0));
            assert(self.bytes.len() <= u64::MAX);
            return false;
        }
        extend(&mut self.bytes, record.as_slice());
        self.at = self.bytes.len() as u64;
        true
    }

    fn cut(&mut self, len: u64) -> (ok: bool)
        ensures
            ok == !old(self).refuses(),
            final(self).refuses() == old(self).refuses(),
            final(self).cursor() == old(self).cursor(),
            !ok ==> *final(self) == *old(self),
    {
        if self.read_only {
            return false;
        }
        self.bytes.truncate(len as usize);
        true
    }

    fn seek(&mut self, at: u64) -> (ok: bool)
        ensures
            ok,
            final(self).cursor() == at,
            final(self).refuses() == old(self).refuses(),
    {
        self.at = at;
        true
    }
}

} // verus!
