use crate::models::events::BookLevel;
use vstd::prelude::*;

verus! {

/// The columns of a record batch, one entry per buffered row, in the file's
/// column order: timestamp, asset id, side, price (bps), size.
pub struct RecordColumns {
    pub timestamps: Vec<i64>,
    pub asset_ids: Vec<u8>,
    pub sides: Vec<u8>,
    pub price_bps: Vec<i16>,
    /// Sizes as the bit patterns of their `f32` values.
    pub size_bits: Vec<u32>,
}

/// The rows waiting to be written to a Parquet file, and the count of rows
/// already written.
pub struct RowBuffer {
    row_buffer: Vec<BookLevel>,
    batch_size: usize,
    rows_written: u64,
    written: Ghost<Seq<BookLevel>>,
    added: Ghost<Seq<BookLevel>>,
}

impl RowBuffer {
    /// The count of written rows matches the rows written, and the rows
    /// written followed by the rows waiting are the rows added.
    pub closed spec fn wf(&self) -> bool {
        &&& self.rows_written == self.written@.len()
        &&& self.written@ + self.row_buffer@ == self.added@
    }

    /// Every row added since the buffer was made, oldest first.
    pub closed spec fn added_rows(&self) -> Seq<BookLevel> {
        self.added@
    }

    /// The rows added and not yet written, oldest first.
    pub closed spec fn pending(&self) -> Seq<BookLevel> {
        self.row_buffer@
    }

    /// The rows written so far, oldest first.
    pub closed spec fn written_rows(&self) -> Seq<BookLevel> {
        self.written@
    }

    pub closed spec fn spec_batch_size(&self) -> usize {
        self.batch_size
    }

    /// An empty buffer that asks to be written once it holds `batch_size` rows.
    pub fn new(batch_size: usize) -> (buf: Self)
        ensures
            buf.pending() == Seq::<BookLevel>::empty(),
            buf.written_rows() == Seq::<BookLevel>::empty(),
            buf.added_rows() == Seq::<BookLevel>::empty(),
            buf.spec_batch_size() == batch_size,
            buf.wf(),
    {
        RowBuffer {
            row_buffer: Vec::with_capacity(batch_size),
            batch_size,
            rows_written: 0,
            written: Ghost(Seq::empty()),
            added: Ghost(Seq::empty()),
        }
    }

    /// Adds a row; the result says whether the buffer now holds a full batch
    /// and should be written.
    pub fn add_row(&mut self, data: BookLevel) -> (flush_due: bool)
        requires
            old(self).wf(),
        ensures
            final(self).wf(),
            final(self).pending() == old(self).pending().push(data),
            final(self).written_rows() == old(self).written_rows(),
            final(self).added_rows() == old(self).added_rows().push(data),
            final(self).spec_batch_size() == old(self).spec_batch_size(),
            flush_due == (final(self).pending().len() >= old(self).spec_batch_size()),
            old(self).pending().len() < old(self).spec_batch_size() ==> (flush_due
                <==> final(self).pending().len() == old(self).spec_batch_size()),
    {
        self.row_buffer.push(data);
        self.added = Ghost(self.added@.push(data));
        assert(self.written@ + self.row_buffer@ =~= self.added@);
        self.row_buffer.len() >= self.batch_size
    }

    /// Whether any row waits to be written.
    pub fn has_pending(&self) -> (some: bool)
        ensures
            some == (self.pending().len() > 0),
    {
        !self.row_buffer.is_empty()
    }

    /// How many rows have been written.
    pub fn rows_written(&self) -> (n: u64)
        requires
            self.wf(),
        ensures
            n == self.written_rows().len(),
    {
        self.rows_written
    }

    /// The waiting rows split into columns.
    pub fn columns(&self) -> (cols: RecordColumns)
        ensures
            cols.timestamps@.len() == self.pending().len(),
            cols.asset_ids@.len() == self.pending().len(),
            cols.sides@.len() == self.pending().len(),
            cols.price_bps@.len() == self.pending().len(),
            cols.size_bits@.len() == self.pending().len(),
            forall|i: int|
                0 <= i < self.pending().len() ==> {
                    &&& #[trigger] cols.timestamps@[i] == self.pending()[i].timestamp
                    &&& cols.asset_ids@[i] == self.pending()[i].asset_binary
                    &&& cols.sides@[i] == self.pending()[i].side
                    &&& cols.price_bps@[i] == self.pending()[i].price_bps
                    &&& cols.size_bits@[i] == self.pending()[i].size_bits
                },
    {
        let len = self.row_buffer.len();
        let mut timestamps: Vec<i64> = Vec::with_capacity(len);
        let mut asset_ids: Vec<u8> = Vec::with_capacity(len);
        let mut sides: Vec<u8> = Vec::with_capacity(len);
        let mut price_bps: Vec<i16> = Vec::with_capacity(len);
        let mut size_bits: Vec<u32> = Vec::with_capacity(len);
        let mut i: usize = 0;
        while i < len
            invariant
                len == self.pending().len(),
                0 <= i <= len,
                timestamps@.len() == i,
                asset_ids@.len() == i,
                sides@.len() == i,
                price_bps@.len() == i,
                size_bits@.len() == i,
                forall|j: int|
                    0 <= j < i ==> {
                        &&& #[trigger] timestamps@[j] == self.pending()[j].timestamp
                        &&& asset_ids@[j] == self.pending()[j].asset_binary
                        &&& sides@[j] == self.pending()[j].side
                        &&& price_bps@[j] == self.pending()[j].price_bps
                        &&& size_bits@[j] == self.pending()[j].size_bits
                    },
            decreases len - i,
        {
            let row = &self.row_buffer[i];
            timestamps.push(row.timestamp);
            asset_ids.push(row.asset_binary);
            sides.push(row.side);
            price_bps.push(row.price_bps);
            size_bits.push(row.size_bits);
            i = i + 1;
        }
        RecordColumns { timestamps, asset_ids, sides, price_bps, size_bits }
    }

    /// Records that the waiting rows were written as one batch.
    pub fn mark_flushed(&mut self)
        requires
            old(self).wf(),
            old(self).written_rows().len() + old(self).pending().len() <= u64::MAX,
        ensures
            final(self).wf(),
            final(self).pending() == Seq::<BookLevel>::empty(),
            final(self).written_rows() == old(self).written_rows() + old(self).pending(),
            final(self).added_rows() == old(self).added_rows(),
            final(self).spec_batch_size() == old(self).spec_batch_size(),
    {
        let n = self.row_buffer.len() as u64;
        self.rows_written = self.rows_written + n;
        self.written = Ghost(self.written@ + self.row_buffer@);
        self.row_buffer.clear();
        assert(self.written@ + self.row_buffer@ =~= self.added@);
    }
}

/// Nothing is lost or reordered: the rows written, then the rows waiting, are
/// every row added, in the order added; so once no row waits (after the last
/// batch is written) the rows written are exactly the rows added.
pub proof fn law_rows_written_in_order(buf: RowBuffer)
    requires
        buf.wf(),
    ensures
        buf.written_rows() + buf.pending() == buf.added_rows(),
        buf.pending().len() == 0 ==> buf.written_rows() == buf.added_rows(),
{
    if buf.pending().len() == 0 {
        assert(buf.written_rows() + buf.pending() =~= buf.written_rows());
    }
}

} // verus!
