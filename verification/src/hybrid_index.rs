//! Run-compressed index over an append-only, non-decreasing `u64` sequence.
//!
//! The logical sequence is stored as runs `(base, stride, count)` meaning the
//! values `base, base + stride, ..., base + (count - 1) * stride`. Completed
//! runs are spilled to a record vector; the run currently being grown stays in
//! the structure itself. A helper array of cumulative run lengths supports
//! random access by binary search.

use vstd::prelude::*;
use vstd::arithmetic::mul::lemma_mul_inequality;

use crate::CaptureError;
use crate::file_vec::FileVec;

verus! {

broadcast use vstd::arithmetic::mul::group_mul_basics;

/// One completed run: `count` logical values starting at `base`, each
/// `stride` above the previous.
#[derive(Copy, Clone)]
pub struct IndexEntry {
    pub base: u64,
    pub stride: u8,
    pub count: u32,
}

/// The logical values described by one run.
pub open spec fn block_seq(e: IndexEntry) -> Seq<u64> {
    Seq::new(e.count as nat, |k: int| (e.base + k * e.stride) as u64)
}

/// A run is well formed when it is non-empty and its largest value fits in
/// a `u64`.
pub open spec fn block_wf(e: IndexEntry) -> bool {
    &&& e.count >= 1
    &&& e.base + (e.count - 1) * e.stride <= u64::MAX
}

/// The logical values of a sequence of runs, concatenated in order.
pub open spec fn blocks_view(s: Seq<IndexEntry>) -> Seq<u64>
    decreases s.len(),
{
    if s.len() == 0 {
        Seq::empty()
    } else {
        blocks_view(s.drop_last()) + block_seq(s.last())
    }
}

/// Total count of the first `n` runs.
pub open spec fn csum(s: Seq<IndexEntry>, n: int) -> int
    decreases n,
{
    if n <= 0 {
        0
    } else {
        csum(s, n - 1) + s[n - 1].count
    }
}

/// The sequence never decreases: any earlier value is at most any later one.
pub open spec fn non_dec(s: Seq<u64>) -> bool {
    forall|i: int, j: int| #![trigger s[i], s[j]] 0 <= i <= j < s.len() ==> s[i] <= s[j]
}

proof fn lemma_csum_agree(s: Seq<IndexEntry>, t: Seq<IndexEntry>, n: int)
    requires
        0 <= n <= s.len(),
        n <= t.len(),
        forall|i: int| 0 <= i < n ==> s[i] == t[i],
    ensures
        csum(s, n) == csum(t, n),
    decreases n,
{
    if n > 0 {
        lemma_csum_agree(s, t, n - 1);
    }
}

proof fn lemma_csum_mono(s: Seq<IndexEntry>, m: int, n: int)
    requires
        0 <= m <= n <= s.len(),
        forall|j: int| 0 <= j < s.len() ==> block_wf(#[trigger] s[j]),
    ensures
        csum(s, m) + (n - m) <= csum(s, n),
    decreases n,
{
    if m < n {
        lemma_csum_mono(s, m, n - 1);
    }
}

proof fn lemma_blocks_view_push(s: Seq<IndexEntry>, e: IndexEntry)
    ensures
        blocks_view(s.push(e)) == blocks_view(s) + block_seq(e),
{
    assert(s.push(e).drop_last() =~= s);
    assert(s.push(e).last() == e);
}

proof fn lemma_blocks_view_len(s: Seq<IndexEntry>)
    ensures
        blocks_view(s).len() == csum(s, s.len() as int),
    decreases s.len(),
{
    if s.len() > 0 {
        lemma_blocks_view_len(s.drop_last());
        lemma_csum_agree(s.drop_last(), s, s.len() - 1);
    }
}

proof fn lemma_blocks_view_index(s: Seq<IndexEntry>, k: int, i: int)
    requires
        0 <= k < s.len(),
        forall|j: int| 0 <= j < s.len() ==> block_wf(#[trigger] s[j]),
        csum(s, k) <= i < csum(s, k + 1),
    ensures
        0 <= i < blocks_view(s).len(),
        blocks_view(s)[i] == (s[k].base + (i - csum(s, k)) * s[k].stride) as u64,
    decreases s.len(),
{
    lemma_blocks_view_len(s);
    lemma_csum_mono(s, k + 1, s.len() as int);
    lemma_csum_mono(s, 0, k);
    lemma_blocks_view_len(s.drop_last());
    lemma_csum_agree(s.drop_last(), s, s.len() - 1);
    if k == s.len() - 1 {
        assert(blocks_view(s) == blocks_view(s.drop_last()) + block_seq(s.last()));
        assert(blocks_view(s.drop_last()).len() == csum(s, k));
        assert(blocks_view(s)[i] == block_seq(s.last())[i - csum(s, k)]);
        assert(block_seq(s.last())[i - csum(s, k)]
            == (s[k].base + (i - csum(s, k)) * s[k].stride) as u64);
    } else {
        lemma_csum_agree(s.drop_last(), s, k);
        lemma_csum_agree(s.drop_last(), s, k + 1);
        lemma_csum_mono(s, k + 1, s.len() - 1);
        lemma_blocks_view_index(s.drop_last(), k, i);
        assert(blocks_view(s)[i] == blocks_view(s.drop_last())[i]);
    }
}

proof fn lemma_non_dec_push(s: Seq<u64>, v: u64)
    requires
        non_dec(s),
        s.len() > 0 ==> v >= s.last(),
    ensures
        non_dec(s.push(v)),
{
    let t = s.push(v);
    assert forall|i: int, j: int| 0 <= i <= j < t.len() implies t[i] <= t[j] by {
        if j < s.len() {
            assert(t[i] == s[i]);
            assert(t[j] == s[j]);
        } else if i < s.len() {
            assert(t[i] == s[i]);
            assert(s[i] <= s[s.len() - 1]);
        }
    }
}

/// Append-only index of non-decreasing `u64` values, compressed as runs.
pub struct HybridIndex {
    element_width: u8,
    entries: FileVec<IndexEntry>,
    entry_ends: Vec<u64>,
    open_base: u64,
    open_stride: u8,
    open_count: u32,
    completed: u64,
    total: u64,
    last: u64,
}

impl View for HybridIndex {
    type V = Seq<u64>;

    /// The logical sequence: every completed run, then the open run.
    closed spec fn view(&self) -> Seq<u64> {
        blocks_view(self.entries@) + block_seq(self.open_block())
    }
}

impl HybridIndex {
    pub closed spec fn open_block(&self) -> IndexEntry {
        IndexEntry { base: self.open_base, stride: self.open_stride, count: self.open_count }
    }

    /// Number of stored runs, the open one included.
    pub closed spec fn spec_entry_count(&self) -> int {
        self.entries@.len() + if self.open_count >= 1 { 1int } else { 0int }
    }

    /// The open run as (base, stride, length); length zero when the whole
    /// sequence is empty.
    pub closed spec fn spec_open_run(&self) -> (u64, u64, u64) {
        (self.open_base, self.open_stride as u64, self.open_count as u64)
    }

    /// The completed runs are well formed and the helper array carries their
    /// cumulative lengths; an open run, if any, is within `u64` range and
    /// ends at the cached last value.
    closed spec fn runs_wf(&self) -> bool {
        &&& self.entry_ends@.len() == self.entries@.len()
        &&& forall|k: int| 0 <= k < self.entries@.len()
            ==> self.entry_ends@[k] == csum(self.entries@, k + 1)
        &&& forall|k: int| 0 <= k < self.entries@.len()
            ==> block_wf(#[trigger] self.entries@[k])
        &&& self.completed == csum(self.entries@, self.entries@.len() as int)
        &&& self.completed == blocks_view(self.entries@).len()
        &&& self.open_count >= 1 ==> {
            &&& self.open_base + (self.open_count - 1) * self.open_stride <= u64::MAX
            &&& self.last == self.open_base + (self.open_count - 1) * self.open_stride
        }
    }

    /// Structural well-formedness: the runs are consistent, the cached
    /// length and last value agree with the logical sequence, and the
    /// sequence itself never decreases.
    pub closed spec fn wf(&self) -> bool {
        &&& self.runs_wf()
        &&& self.open_count == 0 ==> self.entries@.len() == 0
        &&& self.total == self@.len()
        &&& self@.len() == self.completed + self.open_count
        &&& self@.len() > 0 ==> self.last == self@.last()
        &&& self@.len() == 0 ==> self.last == 0
        &&& non_dec(self@)
        &&& 1 <= self.element_width <= 8
    }

    /// `element_width` is the logical byte width of each stored value,
    /// used only for size reporting.
    pub fn new(element_width: u8) -> (r: Self)
        requires
            1 <= element_width <= 8,
        ensures
            r.wf(),
            r@ == Seq::<u64>::empty(),
    {
        let r = HybridIndex {
            element_width,
            entries: FileVec::new(),
            entry_ends: Vec::new(),
            open_base: 0,
            open_stride: 0,
            open_count: 0,
            completed: 0,
            total: 0,
            last: 0,
        };
        proof {
            assert(block_seq(r.open_block()) =~= Seq::<u64>::empty());
            assert(r@ =~= Seq::<u64>::empty());
        }
        r
    }

    /// Logical length.
    pub fn len(&self) -> (r: u64)
        requires
            self.wf(),
        ensures
            r == self@.len(),
    {
        self.total
    }

    /// Number of stored runs: a storage-efficiency diagnostic.
    pub fn entry_count(&self) -> (r: u64)
        requires
            self.wf(),
        ensures
            r == self.spec_entry_count(),
    {
        proof {
            lemma_csum_mono(self.entries@, 0, self.entries@.len() as int);
        }
        if self.open_count >= 1 {
            self.entries.len() + 1
        } else {
            self.entries.len()
        }
    }

    /// Bytes occupied by the spilled runs, saturating at `u64::MAX`.
    pub closed spec fn spec_size(&self) -> u64 {
        if self.entries@.len() * vstd::layout::size_of::<IndexEntry>() > u64::MAX {
            u64::MAX
        } else {
            (self.entries@.len() * vstd::layout::size_of::<IndexEntry>()) as u64
        }
    }

    /// Bytes occupied by the spilled runs.
    pub fn size(&self) -> (r: u64)
        ensures
            r == self.spec_size(),
    {
        self.entries.size()
    }

    /// Closes the open run, spilling it to the record vector.
    fn spill(&mut self)
        requires
            old(self).runs_wf(),
            old(self).open_count >= 1,
            old(self).completed + old(self).open_count <= u64::MAX,
        ensures
            final(self).runs_wf(),
            final(self).open_count == 0,
            final(self).completed == old(self).completed + old(self).open_count,
            blocks_view(final(self).entries@)
                == blocks_view(old(self).entries@) + block_seq(old(self).open_block()),
            final(self).entries@.len() == old(self).entries@.len() + 1,
            final(self).last == old(self).last,
            final(self).total == old(self).total,
            final(self).element_width == old(self).element_width,
            final(self).open_base == old(self).open_base,
            final(self).open_stride == old(self).open_stride,
    {
        let entry = IndexEntry {
            base: self.open_base,
            stride: self.open_stride,
            count: self.open_count,
        };
        self.entries.push(entry);
        self.completed = self.completed + entry.count as u64;
        self.entry_ends.push(self.completed);
        self.open_count = 0;
        proof {
            let s = old(self).entries@;
            lemma_blocks_view_push(s, entry);
            lemma_blocks_view_len(s);
            lemma_blocks_view_len(self.entries@);
            assert forall|k: int| 0 <= k < self.entries@.len()
                implies self.entry_ends@[k] == csum(self.entries@, k + 1) by {
                if k < s.len() {
                    lemma_csum_agree(s, self.entries@, k + 1);
                    assert(self.entry_ends@[k] == old(self).entry_ends@[k]);
                } else {
                    assert(csum(self.entries@, k + 1)
                        == csum(self.entries@, k) + self.entries@[k].count);
                    lemma_csum_agree(s, self.entries@, k);
                }
            }
            lemma_csum_agree(s, self.entries@, s.len() as int);
        }
    }

    /// Appends `value` at the end of the logical sequence. Values must never
    /// decrease; the sequence length stays within `u64`.
    pub fn push(&mut self, value: u64)
        requires
            old(self).wf(),
            old(self)@.len() > 0 ==> value >= old(self)@.last(),
            old(self)@.len() < u64::MAX,
        ensures
            final(self).wf(),
            final(self)@ == old(self)@.push(value),
            ({
                // Run compression: a push extends the open run exactly when
                // it continues its arithmetic progression (the second value
                // fixes the stride, up to one byte); anything else closes
                // the run and opens a fresh one.
                let (b, s, c) = old(self).spec_open_run();
                if c == 0 {
                    final(self).spec_open_run() == (value, 0u64, 1u64)
                        && final(self).spec_entry_count() == 1
                } else if c == 1 && value - b <= 255 {
                    final(self).spec_open_run() == (b, (value - b) as u64, 2u64)
                        && final(self).spec_entry_count() == old(self).spec_entry_count()
                } else if c >= 2 && value == old(self)@.last() + s && c < 0xFFFFFFFF {
                    final(self).spec_open_run() == (b, s, (c + 1) as u64)
                        && final(self).spec_entry_count() == old(self).spec_entry_count()
                } else {
                    final(self).spec_open_run() == (value, 0u64, 1u64)
                        && final(self).spec_entry_count()
                            == old(self).spec_entry_count() + 1
                }
            }),
    {
        proof {
            lemma_non_dec_push(old(self)@, value);
        }
        if self.open_count == 0 {
            // The whole sequence is empty: start a fresh run.
            self.open_base = value;
            self.open_stride = 0;
            self.open_count = 1;
            proof {
                assert(blocks_view(self.entries@) =~= Seq::<u64>::empty());
                assert(block_seq(self.open_block()) =~= seq![value]);
                assert(self@ =~= old(self)@.push(value));
            }
        } else if self.open_count == 1 {
            let delta = value - self.open_base;
            if delta <= u8::MAX as u64 {
                // Second value of the run fixes the stride.
                self.open_stride = delta as u8;
                self.open_count = 2;
                proof {
                    assert(block_seq(self.open_block()).len() == 2);
                    assert(block_seq(self.open_block())[0] == self.open_base);
                    assert(block_seq(self.open_block())[1] == value);
                    assert(block_seq(old(self).open_block()).len() == 1);
                    assert(block_seq(old(self).open_block())[0] == self.open_base);
                    assert(block_seq(self.open_block())
                        =~= block_seq(old(self).open_block()).push(value));
                    assert(self@ =~= old(self)@.push(value));
                }
            } else {
                // Too far apart for a one-byte stride: spill and restart.
                self.spill();
                self.open_base = value;
                self.open_stride = 0;
                self.open_count = 1;
                proof {
                    assert(block_seq(self.open_block()) =~= seq![value]);
                    assert(self@ =~= old(self)@.push(value));
                }
            }
        } else {
            let stride = self.open_stride as u64;
            if value - self.last == stride && self.open_count < u32::MAX {
                // The arithmetic run continues.
                self.open_count = self.open_count + 1;
                proof {
                    let c = old(self).open_count as int;
                    let st = old(self).open_stride as int;
                    assert(c * st == (c - 1) * st + st) by (nonlinear_arith);
                    assert(block_seq(self.open_block()).len() == c + 1);
                    assert(block_seq(self.open_block())[c] == value);
                    assert forall|i: int| 0 <= i < c
                        implies block_seq(self.open_block())[i]
                            == block_seq(old(self).open_block())[i] by {}
                    assert(block_seq(self.open_block())
                        =~= block_seq(old(self).open_block()).push(value));
                    assert(self@ =~= old(self)@.push(value));
                }
            } else {
                // The run is broken (or full): spill and restart at `value`.
                self.spill();
                self.open_base = value;
                self.open_stride = 0;
                self.open_count = 1;
                proof {
                    assert(block_seq(self.open_block()) =~= seq![value]);
                    assert(self@ =~= old(self)@.push(value));
                }
            }
        }
        self.last = value;
        self.total = self.total + 1;
    }

    /// The value at logical position `index`, which must be in range.
    pub fn get_at(&self, index: u64) -> (r: u64)
        requires
            self.wf(),
            index < self@.len(),
        ensures
            r == self@[index as int],
    {
        if index >= self.completed {
            // The requested value lies in the open run.
            let off = index - self.completed;
            proof {
                lemma_mul_inequality(
                    off as int,
                    self.open_count - 1,
                    self.open_stride as int,
                );
                assert(self@[index as int] == block_seq(self.open_block())[off as int]);
            }
            self.open_base + off * (self.open_stride as u64)
        } else {
            // Binary search for the run containing `index`.
            let ghost s = self.entries@;
            let mut lo: usize = 0;
            let mut hi: usize = self.entry_ends.len();
            proof {
                assert(self.entry_ends@.len() == s.len());
            }
            while lo < hi
                invariant
                    self.wf(),
                    s == self.entries@,
                    0 <= lo <= hi <= self.entry_ends@.len(),
                    forall|j: int| 0 <= j < lo ==> self.entry_ends@[j] <= index,
                    forall|j: int| hi <= j < self.entry_ends@.len()
                        ==> self.entry_ends@[j] > index,
                decreases hi - lo,
            {
                let mid = lo + (hi - lo) / 2;
                if self.entry_ends[mid] <= index {
                    proof {
                        assert forall|j: int| 0 <= j <= mid
                            implies self.entry_ends@[j] <= index by {
                            lemma_csum_mono(s, j + 1, mid as int + 1);
                        }
                    }
                    lo = mid + 1;
                } else {
                    proof {
                        assert forall|j: int| mid <= j < self.entry_ends@.len()
                            implies self.entry_ends@[j] > index by {
                            lemma_csum_mono(s, mid as int + 1, j + 1);
                        }
                    }
                    hi = mid;
                }
            }
            let k = lo;
            proof {
                if k >= self.entry_ends@.len() {
                    if s.len() == 0 {
                        assert(false);
                    } else {
                        assert(self.entry_ends@[s.len() - 1] <= index);
                        assert(self.entry_ends@[s.len() - 1] == csum(s, s.len() as int));
                        assert(false);
                    }
                }
            }
            let e = self.entries.at(k);
            let start: u64 = if k == 0 {
                0
            } else {
                self.entry_ends[k - 1]
            };
            let off = index - start;
            proof {
                assert(self.entry_ends@[k as int] == csum(s, k as int + 1));
                assert(index < csum(s, k as int + 1));
                if k > 0 {
                    assert(self.entry_ends@[k - 1] == csum(s, k as int));
                }
                assert(start == csum(s, k as int));
                assert(block_wf(s[k as int]));
                assert(csum(s, k as int + 1) == csum(s, k as int) + s[k as int].count);
                lemma_blocks_view_index(s, k as int, index as int);
                lemma_mul_inequality(
                    off as int,
                    e.count - 1,
                    e.stride as int,
                );
                assert(self@[index as int] == blocks_view(s)[index as int]);
            }
            e.base + off * (e.stride as u64)
        }
    }

    /// The value at logical position `index`; `OutOfRange` if and only if
    /// `index >= len()`.
    pub fn get(&self, index: u64) -> (r: Result<u64, CaptureError>)
        requires
            self.wf(),
        ensures
            index < self@.len() ==> r == Ok::<u64, CaptureError>(self@[index as int]),
            index >= self@.len() ==> r == Err::<u64, CaptureError>(CaptureError::OutOfRange),
    {
        if index < self.total {
            Ok(self.get_at(index))
        } else {
            Err(CaptureError::OutOfRange)
        }
    }

    /// The values at logical positions `start .. end`, in order;
    /// `OutOfRange` if and only if the range is not within `0 ..= len()` in
    /// increasing order.
    pub fn get_range(&self, start: u64, end: u64) -> (r: Result<Vec<u64>, CaptureError>)
        requires
            self.wf(),
        ensures
            start <= end <= self@.len() ==> (r matches Ok(v)
                && v@ == self@.subrange(start as int, end as int)),
            !(start <= end <= self@.len()) ==> r == Err::<Vec<u64>, CaptureError>(
                CaptureError::OutOfRange),
    {
        if start <= end && end <= self.total {
            let mut out: Vec<u64> = Vec::new();
            let mut i: u64 = start;
            while i < end
                invariant
                    self.wf(),
                    start <= i <= end <= self@.len(),
                    out@ == self@.subrange(start as int, i as int),
                decreases end - i,
            {
                out.push(self.get_at(i));
                i = i + 1;
                proof {
                    assert(self@.subrange(start as int, i as int)
                        == self@.subrange(start as int, i - 1 as int).push(self@[i - 1]));
                }
            }
            Ok(out)
        } else {
            Err(CaptureError::OutOfRange)
        }
    }

    /// A well-formed index holds at most `u64::MAX` values.
    pub proof fn lemma_len_bound(&self)
        requires
            self.wf(),
        ensures
            self@.len() <= u64::MAX,
    {
    }

    /// The logical sequence never decreases: any earlier value is at most
    /// any later one.
    pub proof fn lemma_monotone(&self, i: int, j: int)
        requires
            self.wf(),
            0 <= i <= j < self@.len(),
        ensures
            self@[i] <= self@[j],
    {
    }

    /// Compression never stores more runs than there are values.
    pub proof fn lemma_entry_count_le_len(&self)
        requires
            self.wf(),
        ensures
            self.spec_entry_count() <= self@.len(),
    {
        lemma_csum_mono(self.entries@, 0, self.entries@.len() as int);
    }
}

} // verus!
