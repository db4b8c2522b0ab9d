//! Per-slot coordination flags of the broadcast ring. Four independent
//! flip-flop flags record, for one coordination point: "this slot's logical
//! epoch was bumped past what a lagging reader last observed", "no reader
//! owns this slot", "no writer owns this slot", and "this slot begins a fresh
//! free region". Each setter and clearer returns the flag's previous value so
//! that exactly the caller that flips a flag from false to true performs the
//! associated cleanup; no ordering is imposed among the four flags.

use vstd::prelude::*;

verus! {

/// The live flag record attached to a coordination point. Each flag is
/// toggled independently; a bulk [`AtomicSignal::load`] yields a frozen
/// [`LoadedSignal`] snapshot with accessor predicates.
pub struct AtomicSignal {
    update_epoch: bool,
    no_reader: bool,
    no_writer: bool,
    start_free: bool,
}

/// A frozen snapshot of an [`AtomicSignal`], taken by one bulk load.
pub struct LoadedSignal {
    update_epoch: bool,
    no_reader: bool,
    no_writer: bool,
    start_free: bool,
}

impl AtomicSignal {
    /// Whether the epoch-update flag is set.
    pub closed spec fn epoch_flag(&self) -> bool {
        self.update_epoch
    }

    /// Whether the no-reader flag is set.
    pub closed spec fn reader_flag(&self) -> bool {
        self.no_reader
    }

    /// Whether the no-writer flag is set.
    pub closed spec fn writer_flag(&self) -> bool {
        self.no_writer
    }

    /// Whether the start-free flag is set.
    pub closed spec fn start_free_flag(&self) -> bool {
        self.start_free
    }

    /// A fresh signal with all four flags clear.
    pub fn new() -> (s: AtomicSignal)
        ensures
            !s.epoch_flag(),
            !s.reader_flag(),
            !s.writer_flag(),
            !s.start_free_flag(),
    {
        AtomicSignal { update_epoch: false, no_reader: false, no_writer: false, start_free: false }
    }

    /// Takes a frozen snapshot of all four flags as one unit.
    pub fn load(&self) -> (l: LoadedSignal)
        ensures
            l.epoch_flag() == self.epoch_flag(),
            l.reader_flag() == self.reader_flag(),
            l.writer_flag() == self.writer_flag(),
            l.start_free_flag() == self.start_free_flag(),
    {
        LoadedSignal {
            update_epoch: self.update_epoch,
            no_reader: self.no_reader,
            no_writer: self.no_writer,
            start_free: self.start_free,
        }
    }

    /// Sets the epoch-update flag, returning its previous value; the other
    /// flags are untouched.
    pub fn set_epoch(&mut self) -> (prev: bool)
        ensures
            prev == old(self).epoch_flag(),
            final(self).epoch_flag(),
            final(self).reader_flag() == old(self).reader_flag(),
            final(self).writer_flag() == old(self).writer_flag(),
            final(self).start_free_flag() == old(self).start_free_flag(),
    {
        let prev = self.update_epoch;
        self.update_epoch = true;
        prev
    }

    /// Clears the epoch-update flag, returning its previous value; the other
    /// flags are untouched.
    pub fn clear_epoch(&mut self) -> (prev: bool)
        ensures
            prev == old(self).epoch_flag(),
            !final(self).epoch_flag(),
            final(self).reader_flag() == old(self).reader_flag(),
            final(self).writer_flag() == old(self).writer_flag(),
            final(self).start_free_flag() == old(self).start_free_flag(),
    {
        let prev = self.update_epoch;
        self.update_epoch = false;
        prev
    }

    /// Sets the no-reader flag, returning its previous value; the other flags
    /// are untouched.
    pub fn set_reader(&mut self) -> (prev: bool)
        ensures
            prev == old(self).reader_flag(),
            final(self).reader_flag(),
            final(self).epoch_flag() == old(self).epoch_flag(),
            final(self).writer_flag() == old(self).writer_flag(),
            final(self).start_free_flag() == old(self).start_free_flag(),
    {
        let prev = self.no_reader;
        self.no_reader = true;
        prev
    }

    /// Clears the no-reader flag, returning its previous value; the other
    /// flags are untouched.
    pub fn clear_reader(&mut self) -> (prev: bool)
        ensures
            prev == old(self).reader_flag(),
            !final(self).reader_flag(),
            final(self).epoch_flag() == old(self).epoch_flag(),
            final(self).writer_flag() == old(self).writer_flag(),
            final(self).start_free_flag() == old(self).start_free_flag(),
    {
        let prev = self.no_reader;
        self.no_reader = false;
        prev
    }

    /// Sets the no-writer flag, returning its previous value; the other flags
    /// are untouched.
    pub fn set_writer(&mut self) -> (prev: bool)
        ensures
            prev == old(self).writer_flag(),
            final(self).writer_flag(),
            final(self).epoch_flag() == old(self).epoch_flag(),
            final(self).reader_flag() == old(self).reader_flag(),
            final(self).start_free_flag() == old(self).start_free_flag(),
    {
        let prev = self.no_writer;
        self.no_writer = true;
        prev
    }

    /// Clears the no-writer flag, returning its previous value; the other
    /// flags are untouched.
    pub fn clear_writer(&mut self) -> (prev: bool)
        ensures
            prev == old(self).writer_flag(),
            !final(self).writer_flag(),
            final(self).epoch_flag() == old(self).epoch_flag(),
            final(self).reader_flag() == old(self).reader_flag(),
            final(self).start_free_flag() == old(self).start_free_flag(),
    {
        let prev = self.no_writer;
        self.no_writer = false;
        prev
    }

    /// Sets the start-free flag, returning its previous value; the other
    /// flags are untouched.
    pub fn set_start_free(&mut self) -> (prev: bool)
        ensures
            prev == old(self).start_free_flag(),
            final(self).start_free_flag(),
            final(self).epoch_flag() == old(self).epoch_flag(),
            final(self).reader_flag() == old(self).reader_flag(),
            final(self).writer_flag() == old(self).writer_flag(),
    {
        let prev = self.start_free;
        self.start_free = true;
        prev
    }

    /// Clears the start-free flag, returning its previous value; the other
    /// flags are untouched.
    pub fn clear_start_free(&mut self) -> (prev: bool)
        ensures
            prev == old(self).start_free_flag(),
            !final(self).start_free_flag(),
            final(self).epoch_flag() == old(self).epoch_flag(),
            final(self).reader_flag() == old(self).reader_flag(),
            final(self).writer_flag() == old(self).writer_flag(),
    {
        let prev = self.start_free;
        self.start_free = false;
        prev
    }
}

impl LoadedSignal {
    /// Whether the epoch-update flag was set in the snapshot.
    pub closed spec fn epoch_flag(&self) -> bool {
        self.update_epoch
    }

    /// Whether the no-reader flag was set in the snapshot.
    pub closed spec fn reader_flag(&self) -> bool {
        self.no_reader
    }

    /// Whether the no-writer flag was set in the snapshot.
    pub closed spec fn writer_flag(&self) -> bool {
        self.no_writer
    }

    /// Whether the start-free flag was set in the snapshot.
    pub closed spec fn start_free_flag(&self) -> bool {
        self.start_free
    }

    /// Whether any flag at all was set: a cheap "is there anything to do"
    /// test.
    pub fn has_action(&self) -> (r: bool)
        ensures
            r == (self.epoch_flag() || self.reader_flag() || self.writer_flag()
                || self.start_free_flag()),
    {
        self.update_epoch || self.no_reader || self.no_writer || self.start_free
    }

    /// The snapshot's epoch-update flag.
    pub fn get_epoch(&self) -> (r: bool)
        ensures
            r == self.epoch_flag(),
    {
        self.update_epoch
    }

    /// The snapshot's no-reader flag.
    pub fn get_reader(&self) -> (r: bool)
        ensures
            r == self.reader_flag(),
    {
        self.no_reader
    }

    /// The snapshot's no-writer flag.
    pub fn get_writer(&self) -> (r: bool)
        ensures
            r == self.writer_flag(),
    {
        self.no_writer
    }

    /// The snapshot's start-free flag.
    pub fn start_free(&self) -> (r: bool)
        ensures
            r == self.start_free_flag(),
    {
        self.start_free
    }
}

} // verus!
