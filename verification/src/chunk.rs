//! Scanning a buffer piece by piece.
//!
//! A chunk is scanned on its own, without knowledge of its neighbours, so its
//! record can only hold what lies wholly inside it: the words that end before
//! whitespace of the chunk and the lines that end with a terminator of the
//! chunk. What crosses an edge goes into the boundary context. Merging two
//! neighbours settles the word and the line across their seam, and the result
//! is what a scan of both as one chunk would have given.
use rayon::iter::ParallelIterator;
use rayon::slice::ParallelSlice;
use vstd::prelude::*;
use crate::counter::{counts_of, Counts, WcCounter};
use crate::text::{
    closed_words, ends_in_word, is_whitespace, leading_line_length, lemma_closed_words_concat,
    lemma_counts_bounded, lemma_leading_concat, lemma_line_count_concat, lemma_max_closed_concat,
    lemma_max_line_closed, lemma_trailing_concat, lemma_word_count_closed, line_count,
    max_closed_line, max_nat, starts_in_word, trailing_line_length, NEWLINE,
};

verus! {

/// What of a chunk crosses its edges.
#[derive(Debug, Clone, Copy, PartialEq, Eq)]
pub struct BoundaryContext {
    /// The first byte belongs to a word, which may have begun before the chunk.
    pub starts_in_word: bool,
    /// The last byte belongs to a word, which may go on after the chunk.
    pub ends_in_word: bool,
    /// Bytes up to and including the first terminator; all bytes if there is
    /// none. The line they belong to may have begun before the chunk.
    pub leading_line_length: usize,
    /// Bytes after the last terminator; all bytes if there is none. The line
    /// they belong to may go on after the chunk.
    pub trailing_line_length: usize,
}

/// The scan of one chunk, or of several neighbours merged.
#[derive(Debug, Clone)]
pub struct ChunkStats {
    /// Terminators, words closed by whitespace, bytes, and the longest line
    /// closed by a terminator. Characters are not counted here.
    pub counter: WcCounter,
    /// What crosses the edges.
    pub boundary: BoundaryContext,
}

/// What a [`ChunkStats`] says, with its numbers as naturals.
pub struct Segment {
    pub counts: Counts,
    pub starts_in_word: bool,
    pub ends_in_word: bool,
    pub leading_line_length: nat,
    pub trailing_line_length: nat,
}

impl Segment {
    /// The scan of no bytes.
    pub open spec fn empty() -> Segment {
        Segment {
            counts: Counts::zero(),
            starts_in_word: false,
            ends_in_word: false,
            leading_line_length: 0,
            trailing_line_length: 0,
        }
    }

    /// Whether merging `next` behind `self` closes a word: `self` ends in one
    /// and `next` begins with whitespace.
    pub open spec fn closes_word(self, next: Segment) -> bool {
        self.ends_in_word && next.counts.bytes > 0 && !next.starts_in_word
    }

    /// The length of the line across the seam, once `next` closes it; 0 while
    /// it is still open.
    pub open spec fn seam_line(self, next: Segment) -> nat {
        if next.counts.lines > 0 {
            self.trailing_line_length + next.leading_line_length
        } else {
            0
        }
    }

    /// `self` followed by its right neighbour `next`, as one segment. The
    /// records add up; a word that `self` leaves open and `next` does not
    /// continue is counted; the line across the seam competes for the longest.
    pub open spec fn merged(self, next: Segment) -> Segment {
        let sum = self.counts.plus(next.counts);
        Segment {
            counts: Counts {
                lines: sum.lines,
                words: sum.words + if self.closes_word(next) {
                    1nat
                } else {
                    0nat
                },
                bytes: sum.bytes,
                chars: sum.chars,
                max_line_length: max_nat(sum.max_line_length, self.seam_line(next)),
                label: sum.label,
            },
            starts_in_word: if self.counts.bytes > 0 {
                self.starts_in_word
            } else {
                next.starts_in_word
            },
            ends_in_word: if next.counts.bytes > 0 {
                next.ends_in_word
            } else {
                self.ends_in_word
            },
            leading_line_length: if self.counts.lines > 0 {
                self.leading_line_length
            } else {
                self.counts.bytes + next.leading_line_length
            },
            trailing_line_length: if next.counts.lines > 0 {
                next.trailing_line_length
            } else {
                self.trailing_line_length + next.counts.bytes
            },
        }
    }

    /// The record of the segment taken as a whole buffer: the word that it
    /// ends in is a word, and the unterminated rest is a line.
    pub open spec fn totals(self) -> Counts {
        Counts {
            lines: self.counts.lines,
            words: self.counts.words + if self.ends_in_word {
                1nat
            } else {
                0nat
            },
            bytes: self.counts.bytes,
            chars: self.counts.chars,
            max_line_length: max_nat(self.counts.max_line_length, self.trailing_line_length),
            label: self.counts.label,
        }
    }

    /// Every number of the segment can be held in a `usize`.
    pub open spec fn fits(self) -> bool {
        &&& self.counts.fits()
        &&& self.leading_line_length <= usize::MAX
        &&& self.trailing_line_length <= usize::MAX
    }
}

/// What a scan of `s` as one chunk gives.
pub open spec fn scan_of(s: Seq<u8>) -> Segment {
    Segment {
        counts: Counts {
            lines: line_count(s),
            words: closed_words(s),
            bytes: s.len(),
            chars: 0,
            max_line_length: max_closed_line(s),
            label: None,
        },
        starts_in_word: starts_in_word(s),
        ends_in_word: ends_in_word(s),
        leading_line_length: leading_line_length(s),
        trailing_line_length: trailing_line_length(s),
    }
}

/// Segments merged from left to right, starting from the empty one.
pub open spec fn merge_all(parts: Seq<Segment>) -> Segment
    decreases parts.len(),
{
    if parts.len() == 0 {
        Segment::empty()
    } else {
        merge_all(parts.drop_last()).merged(parts.last())
    }
}

/// Every step of merging `parts` from left to right stays within `usize`.
pub open spec fn merge_all_fits(parts: Seq<Segment>) -> bool {
    forall|n: int| 0 <= n <= parts.len() ==> (#[trigger] merge_all(parts.take(n))).fits()
}

/// What each of `parts` says.
pub open spec fn segments(parts: Seq<ChunkStats>) -> Seq<Segment> {
    parts.map_values(|p: ChunkStats| p@)
}

impl View for ChunkStats {
    type V = Segment;

    open spec fn view(&self) -> Segment {
        Segment {
            counts: self.counter@,
            starts_in_word: self.boundary.starts_in_word,
            ends_in_word: self.boundary.ends_in_word,
            leading_line_length: self.boundary.leading_line_length as nat,
            trailing_line_length: self.boundary.trailing_line_length as nat,
        }
    }
}

/// The scan of a buffer and its record fit in `usize` as soon as the length
/// of the buffer does.
pub proof fn lemma_scan_fits(s: Seq<u8>)
    requires
        s.len() <= usize::MAX,
    ensures
        scan_of(s).fits(),
        scan_of(s).totals().fits(),
{
    lemma_counts_bounded(s);
}

/// Taken as a whole buffer, the scan of `s` gives the lines, words, bytes and
/// longest line of `s`.
pub proof fn lemma_scan_totals(s: Seq<u8>)
    ensures
        scan_of(s).totals() == counts_of(s, false, None),
{
    lemma_word_count_closed(s);
    lemma_max_line_closed(s);
}

/// Merging is transparent to the seam: the scans of two neighbours, merged,
/// are the scan of the two as one chunk.
pub proof fn lemma_merge_is_concat(a: Seq<u8>, b: Seq<u8>)
    ensures
        scan_of(a).merged(scan_of(b)) == scan_of(a + b),
{
    lemma_line_count_concat(a, b);
    lemma_closed_words_concat(a, b);
    lemma_leading_concat(a, b);
    lemma_trailing_concat(a, b);
    lemma_max_closed_concat(a, b);
}

/// Merging may be grouped at will as long as the order is kept: the scans of
/// three neighbours give the scan of the three as one chunk whether the first
/// two or the last two are merged first. The scan of no bytes changes nothing
/// on either side.
pub proof fn lemma_merge_any_grouping(a: Seq<u8>, b: Seq<u8>, c: Seq<u8>)
    ensures
        scan_of(a).merged(scan_of(b)).merged(scan_of(c)) == scan_of(a + b + c),
        scan_of(a).merged(scan_of(b).merged(scan_of(c))) == scan_of(a + b + c),
        scan_of(Seq::empty()) == Segment::empty(),
        Segment::empty().merged(scan_of(a)) == scan_of(a),
        scan_of(a).merged(Segment::empty()) == scan_of(a),
{
    let none = Seq::<u8>::empty();
    lemma_merge_is_concat(a, b);
    lemma_merge_is_concat(a + b, c);
    lemma_merge_is_concat(b, c);
    lemma_merge_is_concat(a, b + c);
    assert(a + (b + c) =~= a + b + c);
    lemma_merge_is_concat(none, a);
}

/// `pieces` joined into one sequence, in their order.
pub open spec fn join_all(pieces: Seq<Seq<u8>>) -> Seq<u8>
    decreases pieces.len(),
{
    if pieces.len() == 0 {
        Seq::empty()
    } else {
        join_all(pieces.drop_last()) + pieces.last()
    }
}

/// The scan of each of `pieces`, each scanned on its own.
pub open spec fn scans_of(pieces: Seq<Seq<u8>>) -> Seq<Segment> {
    pieces.map_values(|piece: Seq<u8>| scan_of(piece))
}

/// Merging is transparent to every seam: however a buffer is cut into
/// adjacent pieces, the scans of the pieces, merged in order, are the scan of
/// the buffer as a single chunk. No step of the merge goes beyond `usize` if
/// the length of the buffer does not.
pub proof fn lemma_merge_all_is_scan_of_join(pieces: Seq<Seq<u8>>)
    ensures
        merge_all(scans_of(pieces)) == scan_of(join_all(pieces)),
        merge_all(scans_of(pieces)).totals() == counts_of(join_all(pieces), false, None),
        join_all(pieces).len() <= usize::MAX ==> merge_all_fits(scans_of(pieces)) && counts_of(
            join_all(pieces),
            false,
            None,
        ).fits(),
    decreases pieces.len(),
{
    let scans = scans_of(pieces);
    let before = pieces.drop_last();
    if pieces.len() > 0 {
        lemma_merge_all_is_scan_of_join(before);
        assert(scans.drop_last() =~= scans_of(before));
        lemma_merge_is_concat(join_all(before), pieces.last());
    }
    lemma_scan_totals(join_all(pieces));
    if join_all(pieces).len() <= usize::MAX {
        lemma_scan_fits(join_all(pieces));
        assert forall|n: int| 0 <= n <= scans.len() implies (#[trigger] merge_all(
            scans.take(n),
        )).fits() by {
            if n == scans.len() {
                assert(scans.take(n) =~= scans);
            } else {
                assert(scans.take(n) =~= scans_of(before).take(n));
            }
        }
    }
}

/// Scans one chunk in a single pass from left to right.
///
/// A word is counted where whitespace ends it, a line where its terminator
/// ends it. No byte sequence is refused.
pub fn process_chunk(chunk: &[u8]) -> (stats: ChunkStats)
    ensures
        stats@ == scan_of(chunk@),
        stats.counter.filename is None,
{
    let mut lines: usize = 0;
    let mut words: usize = 0;
    let mut longest: usize = 0;
    let mut leading: usize = 0;
    let mut line_length: usize = 0;
    let mut in_word: bool = false;
    let mut i: usize = 0;
    while i < chunk.len()
        invariant
            i <= chunk.len(),
            lines == line_count(chunk@.take(i as int)),
            words == closed_words(chunk@.take(i as int)),
            longest == max_closed_line(chunk@.take(i as int)),
            leading == leading_line_length(chunk@.take(i as int)),
            line_length == trailing_line_length(chunk@.take(i as int)),
            in_word == ends_in_word(chunk@.take(i as int)),
        decreases chunk.len() - i,
    {
        let byte: u8 = chunk[i];
        proof {
            let before = chunk@.take(i as int);
            let after = chunk@.take(i + 1);
            assert(after.drop_last() =~= before);
            lemma_counts_bounded(before);
        }
        line_length = line_length + 1;
        if lines == 0 {
            leading = i + 1;
        }
        if byte == NEWLINE {
            lines = lines + 1;
            if line_length > longest {
                longest = line_length;
            }
            line_length = 0;
        }
        if is_whitespace(byte) {
            if in_word {
                words = words + 1;
            }
            in_word = false;
        } else {
            in_word = true;
        }
        i = i + 1;
    }
    assert(chunk@.take(i as int) =~= chunk@);
    let starts: bool = chunk.len() > 0 && !is_whitespace(chunk[0]);
    ChunkStats {
        counter: WcCounter {
            lines,
            words,
            bytes: chunk.len(),
            chars: 0,
            max_line_length: longest,
            filename: None,
        },
        boundary: BoundaryContext {
            starts_in_word: starts,
            ends_in_word: in_word,
            leading_line_length: leading,
            trailing_line_length: line_length,
        },
    }
}

impl ChunkStats {
    /// The scan of no bytes.
    pub fn empty() -> (stats: ChunkStats)
        ensures
            stats@ == Segment::empty(),
            stats.counter.filename is None,
    {
        ChunkStats {
            counter: WcCounter::new(),
            boundary: BoundaryContext {
                starts_in_word: false,
                ends_in_word: false,
                leading_line_length: 0,
                trailing_line_length: 0,
            },
        }
    }

    /// Takes in the right neighbour `next`: afterwards `self` stands for both.
    pub fn merge(&mut self, next: &ChunkStats)
        requires
            old(self)@.merged(next@).fits(),
        ensures
            final(self)@ == old(self)@.merged(next@),
            final(self).counter.filename == old(self).counter.filename,
    {
        let closes_word: bool = self.boundary.ends_in_word && next.counter.bytes > 0
            && !next.boundary.starts_in_word;
        let seam_line: usize = if next.counter.lines > 0 {
            self.boundary.trailing_line_length + next.boundary.leading_line_length
        } else {
            0
        };
        if self.counter.bytes == 0 {
            self.boundary.starts_in_word = next.boundary.starts_in_word;
        }
        if next.counter.bytes > 0 {
            self.boundary.ends_in_word = next.boundary.ends_in_word;
        }
        if self.counter.lines == 0 {
            self.boundary.leading_line_length = self.counter.bytes
                + next.boundary.leading_line_length;
        }
        if next.counter.lines > 0 {
            self.boundary.trailing_line_length = next.boundary.trailing_line_length;
        } else {
            self.boundary.trailing_line_length = self.boundary.trailing_line_length
                + next.counter.bytes;
        }
        self.counter.add_counts(&next.counter);
        if closes_word {
            self.counter.words = self.counter.words + 1;
        }
        if seam_line > self.counter.max_line_length {
            self.counter.max_line_length = seam_line;
        }
    }

    /// The record of the segment taken as a whole buffer: counts the word that
    /// it ends in and takes the unterminated rest as a line.
    pub fn into_counter(self) -> (counter: WcCounter)
        requires
            self@.totals().fits(),
        ensures
            counter@ == self@.totals(),
            counter.filename == self.counter.filename,
    {
        let mut counter = self.counter;
        if self.boundary.ends_in_word {
            counter.words = counter.words + 1;
        }
        if self.boundary.trailing_line_length > counter.max_line_length {
            counter.max_line_length = self.boundary.trailing_line_length;
        }
        counter
    }
}

/// Merges the scans of adjacent chunks, given in the order of the chunks in
/// their buffer, into the record of the buffer.
pub fn merge_chunks(parts: &[ChunkStats]) -> (total: WcCounter)
    requires
        merge_all_fits(segments(parts@)),
        merge_all(segments(parts@)).totals().fits(),
    ensures
        total@ == merge_all(segments(parts@)).totals(),
        total.filename is None,
{
    let mut merged = ChunkStats::empty();
    let mut i: usize = 0;
    while i < parts.len()
        invariant
            i <= parts.len(),
            merge_all_fits(segments(parts@)),
            merged@ == merge_all(segments(parts@).take(i as int)),
            merged.counter.filename is None,
        decreases parts.len() - i,
    {
        proof {
            let all = segments(parts@);
            assert(all.take(i + 1).drop_last() =~= all.take(i as int));
            assert(merge_all(all.take(i + 1)).fits());
        }
        merged.merge(&parts[i]);
        i = i + 1;
    }
    proof {
        let all = segments(parts@);
        assert(all.take(i as int) =~= all);
    }
    merged.into_counter()
}

/// The number of chunks of `size` bytes that `len` bytes are cut into; the
/// last chunk may be shorter.
pub open spec fn chunk_count(len: nat, size: nat) -> nat {
    if size == 0 {
        0
    } else {
        ((len + size - 1) / (size as int)) as nat
    }
}

/// Where chunk `i` of `size` bytes begins in a buffer of `len` bytes, and
/// where chunk `i - 1` ends.
pub open spec fn chunk_start(len: nat, size: nat, i: int) -> int {
    if i * size <= len {
        i * size
    } else {
        len as int
    }
}

/// Chunk `i` of `s` when `s` is cut into chunks of `size` bytes.
pub open spec fn chunk_at(s: Seq<u8>, size: nat, i: int) -> Seq<u8> {
    s.subrange(chunk_start(s.len(), size, i), chunk_start(s.len(), size, i + 1))
}

/// The scans of the chunks of `size` bytes of `s`, each scanned on its own, in
/// the order of the chunks.
pub open spec fn chunk_scans(s: Seq<u8>, size: nat) -> Seq<Segment> {
    Seq::new(chunk_count(s.len(), size), |i: int| scan_of(chunk_at(s, size, i)))
}

/// The chunks before chunk `k` end before the buffer does, and all chunks
/// together reach its end.
proof fn lemma_chunk_bounds(len: nat, size: nat, k: int)
    requires
        size >= 1,
        0 <= k <= chunk_count(len, size),
    ensures
        k < chunk_count(len, size) ==> k * size < len,
        k == chunk_count(len, size) ==> k * size >= len,
        0 <= chunk_start(len, size, k) <= len,
        k < chunk_count(len, size) ==> chunk_start(len, size, k) == k * size,
        k < chunk_count(len, size) ==> chunk_start(len, size, k) < chunk_start(len, size, k + 1),
        k == chunk_count(len, size) ==> chunk_start(len, size, k) == len,
        k == 0 ==> chunk_start(len, size, k) == 0,
{
    let n = chunk_count(len, size) as int;
    assert(0 * size == 0) by (nonlinear_arith);
    let x = len + size - 1;
    assert(size * n <= x && x < size * n + size) by (nonlinear_arith)
        requires
            n == x / (size as int),
            size >= 1,
            x >= 0,
    ;
    assert(0 <= k * size) by (nonlinear_arith)
        requires
            0 <= k,
            size >= 1,
    ;
    if k < n {
        assert(k * size + size <= n * size) by (nonlinear_arith)
            requires
                k + 1 <= n,
                size >= 1,
        ;
        assert(n * size == size * n) by (nonlinear_arith);
        assert((k + 1) * size == k * size + size) by (nonlinear_arith);
    } else {
        assert(k * size == size * n) by (nonlinear_arith)
            requires
                k == n,
        ;
    }
}

/// A buffer is cut into no more chunks than it has bytes, so merging the
/// scans of its chunks takes no more steps than the buffer is long.
pub proof fn lemma_chunk_count_bounded(len: nat, size: nat)
    requires
        size >= 1,
    ensures
        chunk_count(len, size) <= len,
        len > 0 ==> chunk_count(len, size) >= 1,
{
    let n = chunk_count(len, size) as int;
    if n > 0 {
        lemma_chunk_bounds(len, size, n - 1);
        assert(n - 1 <= (n - 1) * size) by (nonlinear_arith)
            requires
                n >= 1,
                size >= 1,
        ;
    }
    lemma_chunk_bounds(len, size, n);
    if len > 0 && n == 0 {
        assert(n * size == 0) by (nonlinear_arith)
            requires
                n == 0,
        ;
    }
}

/// Merging the scans of the first `k` chunks gives the scan of the bytes that
/// those chunks cover.
proof fn lemma_chunks_merge_prefix(s: Seq<u8>, size: nat, k: int)
    requires
        size >= 1,
        0 <= k <= chunk_count(s.len(), size),
    ensures
        merge_all(chunk_scans(s, size).take(k)) == scan_of(
            s.take(chunk_start(s.len(), size, k)),
        ),
    decreases k,
{
    let scans = chunk_scans(s, size);
    let none = Seq::<u8>::empty();
    if k == 0 {
        lemma_chunk_bounds(s.len(), size, 0);
        assert(chunk_start(s.len(), size, 0) == 0);
        assert(s.take(0) =~= none);
        assert(scans.take(0) =~= Seq::<Segment>::empty());
        assert(merge_all(scans.take(0)) == Segment::empty());
        assert(scan_of(none) == Segment::empty());
    } else {
        lemma_chunk_bounds(s.len(), size, k - 1);
        lemma_chunk_bounds(s.len(), size, k);
        let from = chunk_start(s.len(), size, k - 1);
        let to = chunk_start(s.len(), size, k);
        let chunk = chunk_at(s, size, k - 1);
        assert(0 <= from <= to <= s.len());
        assert(chunk == s.subrange(from, to));
        // the scans of the first k chunks are those of the first k - 1 and that of chunk k - 1
        assert(scans.take(k).drop_last() =~= scans.take(k - 1));
        assert(scans.take(k).last() == scans[k - 1]);
        assert(scans[k - 1] == scan_of(chunk));
        assert(merge_all(scans.take(k)) == merge_all(scans.take(k - 1)).merged(scan_of(chunk)));
        // by induction, the first k - 1 merge to the scan of what they cover
        lemma_chunks_merge_prefix(s, size, k - 1);
        assert(merge_all(scans.take(k - 1)) == scan_of(s.take(from)));
        // and merging chunk k - 1 behind them is scanning it along
        lemma_merge_is_concat(s.take(from), chunk);
        assert(s.take(from) + chunk =~= s.take(to));
        assert(scan_of(s.take(from)).merged(scan_of(chunk)) == scan_of(s.take(to)));
    }
}

/// Whatever the size of the chunks, their scans, merged in order, are the
/// scan of the buffer as a single chunk, and so give the same lines, words,
/// bytes and longest line.
pub proof fn lemma_chunks_merge(s: Seq<u8>, size: nat)
    requires
        size >= 1,
    ensures
        merge_all(chunk_scans(s, size)) == scan_of(s),
        merge_all(chunk_scans(s, size)).totals() == counts_of(s, false, None),
        s.len() <= usize::MAX ==> merge_all_fits(chunk_scans(s, size)) && counts_of(
            s,
            false,
            None,
        ).fits(),
{
    let scans = chunk_scans(s, size);
    let n = chunk_count(s.len(), size) as int;
    lemma_chunks_merge_prefix(s, size, n);
    lemma_chunk_bounds(s.len(), size, n);
    assert(chunk_start(s.len(), size, n) == s.len());
    assert(scans.len() == n);
    assert(scans.take(n) =~= scans);
    assert(s.take(s.len() as int) =~= s);
    assert(merge_all(scans) == scan_of(s));
    lemma_scan_totals(s);
    if s.len() <= usize::MAX {
        lemma_scan_fits(s);
        assert forall|k: int| 0 <= k <= scans.len() implies (#[trigger] merge_all(
            scans.take(k),
        )).fits() by {
            lemma_chunks_merge_prefix(s, size, k);
            lemma_chunk_bounds(s.len(), size, k);
            let covered = s.take(chunk_start(s.len(), size, k));
            assert(covered.len() <= s.len());
            lemma_scan_fits(covered);
        }
    }
}

/// Hands the chunks of `chunk_size` bytes of `bytes` to rayon's worker threads,
/// has each scanned by [`process_chunk`], and collects the scans.
///
/// Calls `par_chunks` of rayon's `ParallelSlice`, then `map` and `collect` of
/// its parallel iterators. Taken from rayon: `par_chunks` yields the
/// consecutive, non-overlapping chunks of `chunk_size` elements, of which only
/// the last may be shorter, and panics if `chunk_size` is 0; the number of
/// chunks is the length divided by `chunk_size`, rounded up; and collecting an
/// indexed parallel iterator into a `Vec` keeps the order of the items.
#[verifier::external_body]
fn scan_chunks(bytes: &[u8], chunk_size: usize) -> (parts: Vec<ChunkStats>)
    requires
        chunk_size > 0,
    ensures
        segments(parts@) == chunk_scans(bytes@, chunk_size as nat),
{
    bytes.par_chunks(chunk_size).map(process_chunk).collect()
}

/// Scans `bytes` in chunks of `chunk_size` bytes, the chunks in parallel, and
/// merges the scans. The result does not depend on `chunk_size`.
pub fn scan_in_chunks(bytes: &[u8], chunk_size: usize) -> (total: WcCounter)
    requires
        chunk_size > 0,
    ensures
        total@ == counts_of(bytes@, false, None),
        total.filename is None,
{
    let parts = scan_chunks(bytes, chunk_size);
    proof {
        assert(bytes@.len() == bytes.len());
        lemma_chunks_merge(bytes@, chunk_size as nat);
    }
    merge_chunks(parts.as_slice())
}

} // verus!
