//! Transaction journal: begin / commit / abort over persistent heap writes.
//!
//! The journal records `(heap_offset, old_byte)` pairs so that `abort()` can
//! roll back every write made within the transaction. Writing more than `CAP`
//! bytes within one transaction is refused with [`TransactionError::BufferFull`].
use vstd::prelude::*;
use crate::bytes::{hi8, le16, lemma_split_join16, lo8, high_byte, low_byte, read_le16};
use crate::heap::ObjectHeap;

verus! {

/// Error from a transaction operation.
#[derive(Debug, Clone, Copy, PartialEq, Eq, Structural)]
pub enum TransactionError {
    /// No transaction is active.
    NotActive,
    /// A transaction is already in progress.
    AlreadyActive,
    /// Transaction journal capacity exceeded.
    BufferFull,
}

/// Fixed-capacity transaction journal.
///
/// `CAP` is the maximum number of byte-level writes tracked per transaction.
pub struct TransactionJournal<const CAP: usize> {
    /// Journal entries: (heap byte offset, old byte value).
    entries: [(u16, u8); CAP],
    /// Number of entries used.
    count: u16,
    /// Whether a transaction is active.
    active: bool,
}

/// The heap bytes after one journal entry is written back (only allocated bytes are
/// ever written back).
pub open spec fn write_back(bytes: Seq<u8>, free: nat, entry: (u16, u8)) -> Seq<u8> {
    if entry.0 < free && entry.0 < bytes.len() {
        bytes.update(entry.0 as int, entry.1)
    } else {
        bytes
    }
}

/// The heap bytes after rolling back `entries`, most recent entry first.
pub open spec fn rollback(bytes: Seq<u8>, free: nat, entries: Seq<(u16, u8)>) -> Seq<u8>
    decreases entries.len(),
{
    if entries.len() == 0 {
        bytes
    } else {
        rollback(write_back(bytes, free, entries.last()), free, entries.drop_last())
    }
}

/// The bytes of one saved journal entry: offset (u16 LE), then the old byte.
pub open spec fn entry_image(e: (u16, u8)) -> Seq<u8> {
    seq![lo8(e.0), hi8(e.0), e.1]
}

/// The bytes of saved journal entries, in order.
pub open spec fn entries_image(es: Seq<(u16, u8)>) -> Seq<u8>
    decreases es.len(),
{
    if es.len() == 0 {
        Seq::empty()
    } else {
        entries_image(es.drop_last()) + entry_image(es.last())
    }
}

/// The bytes of a saved journal: active flag, entry count (u16 LE), entries.
pub open spec fn journal_image(active: bool, es: Seq<(u16, u8)>) -> Seq<u8> {
    seq![if active { 1u8 } else { 0u8 }, lo8(es.len() as u16), hi8(es.len() as u16)]
        + entries_image(es)
}

proof fn lemma_entries_image_len(es: Seq<(u16, u8)>)
    ensures
        entries_image(es).len() == 3 * es.len(),
    decreases es.len(),
{
    if es.len() > 0 {
        lemma_entries_image_len(es.drop_last());
    }
}

proof fn lemma_entries_image_index(es: Seq<(u16, u8)>, i: int)
    requires
        0 <= i < es.len(),
    ensures
        entries_image(es)[3 * i] == lo8(es[i].0),
        entries_image(es)[3 * i + 1] == hi8(es[i].0),
        entries_image(es)[3 * i + 2] == es[i].1,
    decreases es.len(),
{
    lemma_entries_image_len(es);
    lemma_entries_image_len(es.drop_last());
    if i < es.len() - 1 {
        lemma_entries_image_index(es.drop_last(), i);
    }
}

impl<const CAP: usize> TransactionJournal<CAP> {
    /// The recorded entries, oldest first.
    pub closed spec fn recorded(&self) -> Seq<(u16, u8)> {
        self.entries@.subrange(0, self.count as int)
    }

    /// The entry count.
    pub closed spec fn entry_count(&self) -> nat {
        self.count as nat
    }

    /// Whether a transaction is active.
    pub closed spec fn active_spec(&self) -> bool {
        self.active
    }

    /// The entry count stays within the capacity.
    pub open spec fn wf(&self) -> bool {
        self.entry_count() <= CAP
    }

    proof fn lemma_recorded(&self)
        requires
            self.wf(),
        ensures
            self.recorded().len() == self.entry_count(),
            forall|i: int| 0 <= i < self.entry_count() ==> #[trigger] self.recorded()[i] == self.entries@[i],
    {
    }

    /// Create a new, inactive journal.
    pub fn new() -> (j: Self)
        ensures
            j.wf(),
            !j.active_spec(),
            j.entry_count() == 0,
            j.recorded() == Seq::<(u16, u8)>::empty(),
    {
        let j = TransactionJournal { entries: [(0u16, 0u8); CAP], count: 0, active: false };
        assert(j.recorded() =~= Seq::<(u16, u8)>::empty());
        j
    }

    /// Whether a transaction is currently active.
    pub fn is_active(&self) -> (r: bool)
        ensures
            r == self.active_spec(),
    {
        self.active
    }

    /// Begin a new transaction with an empty journal.
    pub fn begin(&mut self) -> (r: Result<(), TransactionError>)
        ensures
            old(self).active_spec() ==> r == Err::<(), TransactionError>(
                TransactionError::AlreadyActive,
            ) && *final(self) == *old(self),
            !old(self).active_spec() ==> r is Ok && final(self).active_spec() && final(self).entry_count() == 0 && final(self).recorded() == Seq::<(u16, u8)>::empty() && final(self).wf(),
    {
        if self.active {
            return Err(TransactionError::AlreadyActive);
        }
        self.active = true;
        self.count = 0;
        assert(self.recorded() =~= Seq::<(u16, u8)>::empty());
        Ok(())
    }

    /// Record a persistent write for potential rollback: the heap offset and the byte it
    /// held before the write.
    pub fn record_write(&mut self, heap_offset: u16, old_byte: u8) -> (r: Result<
        (),
        TransactionError,
    >)
        requires
            old(self).wf(),
            !old(self).active_spec() || old(self).entry_count() >= CAP || old(self).entry_count()
                < u16::MAX,
        ensures
            final(self).wf(),
            !old(self).active_spec() ==> r == Err::<(), TransactionError>(
                TransactionError::NotActive,
            ) && *final(self) == *old(self),
            old(self).active_spec() && old(self).entry_count() >= CAP ==> r == Err::<
                (),
                TransactionError,
            >(TransactionError::BufferFull) && *final(self) == *old(self),
            old(self).active_spec() && old(self).entry_count() < CAP ==> r is Ok && final(self).active_spec() && final(self).recorded() == old(self).recorded().push(
                (heap_offset, old_byte),
            ) && final(self).entry_count() == old(self).entry_count() + 1,
    {
        if !self.active {
            return Err(TransactionError::NotActive);
        }
        if self.count as usize >= CAP {
            return Err(TransactionError::BufferFull);
        }
        let ghost before = self.recorded();
        self.entries[self.count as usize] = (heap_offset, old_byte);
        self.count = self.count + 1;
        assert(self.recorded() =~= before.push((heap_offset, old_byte)));
        Ok(())
    }

    /// Commit the current transaction: keep the writes, discard the journal.
    pub fn commit(&mut self) -> (r: Result<(), TransactionError>)
        ensures
            !old(self).active_spec() ==> r == Err::<(), TransactionError>(
                TransactionError::NotActive,
            ) && *final(self) == *old(self),
            old(self).active_spec() ==> r is Ok && !final(self).active_spec() && final(self).entry_count() == 0 && final(self).wf(),
    {
        if !self.active {
            return Err(TransactionError::NotActive);
        }
        self.active = false;
        self.count = 0;
        Ok(())
    }

    /// Abort the current transaction: write every recorded old byte back into the heap,
    /// most recent first, and discard the journal.
    pub fn abort<const H: usize>(&mut self, heap: &mut ObjectHeap<H>) -> (r: Result<
        (),
        TransactionError,
    >)
        requires
            old(self).wf(),
            old(heap).wf(),
        ensures
            final(heap).wf(),
            !old(self).active_spec() ==> r == Err::<(), TransactionError>(
                TransactionError::NotActive,
            ) && *final(self) == *old(self) && *final(heap) == *old(heap),
            old(self).active_spec() ==> r is Ok && !final(self).active_spec() && final(self).entry_count() == 0 && final(self).wf() && final(heap).free_ptr() == old(heap).free_ptr() && final(heap).bytes() == rollback(
                old(heap).bytes(),
                old(heap).free_ptr(),
                old(self).recorded(),
            ),
    {
        if !self.active {
            return Err(TransactionError::NotActive);
        }
        proof {
            self.lemma_recorded();
        }
        let n = self.count as usize;
        assert(self.recorded().subrange(0, n as int) =~= self.recorded());
        let mut i = n;
        while i > 0
            invariant
                i <= n,
                n == self.entry_count(),
                n <= CAP,
                self.wf(),
                *self == *old(self),
                heap.wf(),
                heap.free_ptr() == old(heap).free_ptr(),
                rollback(heap.bytes(), heap.free_ptr(), self.recorded().subrange(0, i as int))
                    == rollback(old(heap).bytes(), old(heap).free_ptr(), self.recorded()),
            decreases i,
        {
            let ghost es = self.recorded().subrange(0, i as int);
            let (offset, old_byte) = self.entries[i - 1];
            assert(es.last() == (offset, old_byte));
            assert(es.drop_last() =~= self.recorded().subrange(0, i - 1));
            heap.raw_write(offset as usize, old_byte);
            i = i - 1;
        }
        assert(self.recorded().subrange(0, 0) =~= Seq::<(u16, u8)>::empty());
        self.active = false;
        self.count = 0;
        Ok(())
    }

    /// Snapshot size: active(1) + count(2) + entries(count * 3).
    pub fn snapshot_size(&self) -> (r: usize)
        ensures
            r == 3 + 3 * self.entry_count(),
    {
        1 + 2 + (self.count as usize) * 3
    }

    /// Maximum snapshot size for this capacity.
    pub fn max_snapshot_size() -> (r: usize)
        requires
            3 + 3 * CAP <= usize::MAX,
        ensures
            r == 3 + 3 * CAP,
    {
        1 + 2 + CAP * 3
    }

    /// Save the journal into `buf`. Returns the bytes written, or 0 (writing nothing)
    /// when `buf` is too small.
    pub fn save_state(&self, buf: &mut [u8]) -> (r: usize)
        requires
            self.wf(),
        ensures
            final(buf)@.len() == old(buf)@.len(),
            old(buf)@.len() < 3 + 3 * self.entry_count() ==> r == 0 && final(buf)@ == old(buf)@,
            old(buf)@.len() >= 3 + 3 * self.entry_count() ==> r == 3 + 3 * self.entry_count()
                && final(buf)@.subrange(0, r as int) == journal_image(
                self.active_spec(),
                self.recorded(),
            ) && final(buf)@.subrange(r as int, old(buf)@.len() as int) == old(buf)@.subrange(
                r as int,
                old(buf)@.len() as int,
            ),
    {
        let needed = 1 + 2 + (self.count as usize) * 3;
        if buf.len() < needed {
            return 0;
        }
        proof {
            self.lemma_recorded();
            lemma_entries_image_len(self.recorded());
        }
        buf[0] = if self.active { 1 } else { 0 };
        buf[1] = low_byte(self.count);
        buf[2] = high_byte(self.count);
        let mut off: usize = 3;
        let mut i: usize = 0;
        while i < self.count as usize
            invariant
                self.wf(),
                i <= self.entry_count(),
                off == 3 + 3 * i,
                needed == 3 + 3 * self.entry_count(),
                buf@.len() == old(buf)@.len(),
                buf@.len() >= needed,
                buf@[0] == (if self.active_spec() { 1u8 } else { 0u8 }),
                buf@[1] == lo8(self.entry_count() as u16),
                buf@[2] == hi8(self.entry_count() as u16),
                forall|k: int| 0 <= k < i ==> #[trigger] buf@[3 + 3 * k] == lo8(self.recorded()[k].0),
                forall|k: int| 0 <= k < i ==> #[trigger] buf@[4 + 3 * k] == hi8(self.recorded()[k].0),
                forall|k: int| 0 <= k < i ==> #[trigger] buf@[5 + 3 * k] == self.recorded()[k].1,
                forall|k: int| needed <= k < buf@.len() ==> #[trigger] buf@[k] == old(buf)@[k],
            decreases self.entry_count() - i,
        {
            let (offset, old_byte) = self.entries[i];
            proof {
                self.lemma_recorded();
            }
            buf[off] = low_byte(offset);
            buf[off + 1] = high_byte(offset);
            buf[off + 2] = old_byte;
            off = off + 3;
            i = i + 1;
        }
        proof {
            let img = journal_image(self.active_spec(), self.recorded());
            let es = self.recorded();
            assert(es.len() == self.entry_count());
            assert forall|k: int| 0 <= k < needed implies #[trigger] buf@.subrange(0, needed as int)[k] == img[k] by {
                if k >= 3 {
                    let e = (k - 3) / 3;
                    lemma_entries_image_index(es, e);
                    assert(img[k] == entries_image(es)[k - 3]);
                    if (k - 3) % 3 == 0 {
                        assert(buf@[3 + 3 * e] == lo8(es[e].0));
                    } else if (k - 3) % 3 == 1 {
                        assert(buf@[4 + 3 * e] == hi8(es[e].0));
                    } else {
                        assert(buf@[5 + 3 * e] == es[e].1);
                    }
                }
            }
            assert(buf@.subrange(0, needed as int) =~= img);
            assert(buf@.subrange(needed as int, buf@.len() as int) =~= old(buf)@.subrange(
                needed as int,
                old(buf)@.len() as int,
            ));
        }
        off
    }

    /// Restore the journal from a buffer written by [`Self::save_state`]. Returns success.
    ///
    /// The buffer is checked before anything is taken from it: a refused buffer leaves
    /// the journal as it was.
    pub fn restore_state(&mut self, buf: &[u8]) -> (r: bool)
        ensures
            r == (buf@.len() >= 3 && le16(buf@[1], buf@[2]) <= CAP && buf@.len() >= 3 + 3 * le16(
                buf@[1],
                buf@[2],
            )),
            !r ==> *final(self) == *old(self),
            r ==> final(self).wf(),
            r ==> final(self).active_spec() == (buf@[0] != 0),
            r ==> final(self).entry_count() == le16(buf@[1], buf@[2]),
            r ==> final(self).recorded().len() == final(self).entry_count(),
            r ==> forall|i: int|
                0 <= i < final(self).entry_count() ==> #[trigger] final(self).recorded()[i] == (
                    le16(buf@[3 + 3 * i], buf@[4 + 3 * i]),
                    buf@[5 + 3 * i],
                ),
    {
        if buf.len() < 3 {
            return false;
        }
        let count = read_le16(buf[1], buf[2]);
        if count as usize > CAP || buf.len() < 3 + 3 * (count as usize) {
            return false;
        }
        let mut i: usize = 0;
        while i < count as usize
            invariant
                count == le16(buf@[1], buf@[2]),
                count <= CAP,
                buf@.len() >= 3 + 3 * count,
                i <= count,
                self.entries@.len() == CAP,
                forall|k: int|
                    0 <= k < i ==> #[trigger] self.entries@[k] == (
                        le16(buf@[3 + 3 * k], buf@[4 + 3 * k]),
                        buf@[5 + 3 * k],
                    ),
            decreases count - i,
        {
            let off = 3 + 3 * i;
            let offset = read_le16(buf[off], buf[off + 1]);
            let old_byte = buf[off + 2];
            self.entries[i] = (offset, old_byte);
            i = i + 1;
        }
        self.active = buf[0] != 0;
        self.count = count;
        proof {
            self.lemma_recorded();
        }
        true
    }
}

/// Restoring what `save_state` wrote gives back the same active flag and the same
/// recorded entries, in order.
pub proof fn lemma_snapshot_roundtrip(active: bool, es: Seq<(u16, u8)>, buf: Seq<u8>)
    requires
        es.len() <= u16::MAX,
        buf.len() >= 3 + 3 * es.len(),
        buf.subrange(0, 3 + 3 * es.len() as int) == journal_image(active, es),
    ensures
        (buf[0] != 0) == active,
        le16(buf[1], buf[2]) == es.len(),
        forall|i: int|
            0 <= i < es.len() ==> (#[trigger] es[i]) == (le16(buf[3 + 3 * i], buf[4 + 3 * i]), buf[5
                + 3 * i]),
{
    let n: int = 3 + 3 * es.len() as int;
    let img = journal_image(active, es);
    lemma_entries_image_len(es);
    assert(buf[0] == buf.subrange(0, n)[0]);
    assert(buf[1] == buf.subrange(0, n)[1]);
    assert(buf[2] == buf.subrange(0, n)[2]);
    lemma_split_join16(es.len() as u16);
    assert forall|i: int| 0 <= i < es.len() implies (#[trigger] es[i]) == (
        le16(buf[3 + 3 * i], buf[4 + 3 * i]),
        buf[5 + 3 * i],
    ) by {
        lemma_entries_image_index(es, i);
        assert(buf[3 + 3 * i] == buf.subrange(0, n)[3 + 3 * i]);
        assert(buf[4 + 3 * i] == buf.subrange(0, n)[4 + 3 * i]);
        assert(buf[5 + 3 * i] == buf.subrange(0, n)[5 + 3 * i]);
        assert(img[3 + 3 * i] == entries_image(es)[3 * i]);
        assert(img[4 + 3 * i] == entries_image(es)[3 * i + 1]);
        assert(img[5 + 3 * i] == entries_image(es)[3 * i + 2]);
        lemma_split_join16(es[i].0);
    }
}

/// Which entry of `es`, if any, first recorded offset `o`.
pub open spec fn first_entry_for(es: Seq<(u16, u8)>, o: int) -> Option<int>
    decreases es.len(),
{
    if es.len() == 0 {
        None
    } else {
        match first_entry_for(es.drop_last(), o) {
            Some(i) => Some(i),
            None => if es.last().0 == o {
                Some(es.len() - 1)
            } else {
                None
            },
        }
    }
}

/// Abort restores the pre-transaction bytes: after the rollback, each allocated byte
/// holds the old value that the *first* journal entry for its offset recorded (the
/// value it had when the transaction first touched it), and bytes that no entry names
/// are left as they were.
pub proof fn lemma_rollback_restores_first_recorded(
    bytes: Seq<u8>,
    free: nat,
    es: Seq<(u16, u8)>,
    o: int,
)
    requires
        0 <= o < bytes.len(),
        o < free,
    ensures
        rollback(bytes, free, es).len() == bytes.len(),
        match first_entry_for(es, o) {
            Some(i) => 0 <= i < es.len() && rollback(bytes, free, es)[o] == es[i].1,
            None => rollback(bytes, free, es)[o] == bytes[o],
        },
    decreases es.len(),
{
    if es.len() > 0 {
        let b2 = write_back(bytes, free, es.last());
        lemma_rollback_restores_first_recorded(b2, free, es.drop_last(), o);
    }
}

} // verus!
