//! The statistics record, the sum of two records, and the scan of a whole
//! buffer.
use vstd::prelude::*;
use crate::chars::{char_count, count_chars, lemma_char_count_bounded};
use crate::chunk::scan_in_chunks;
use crate::error::{WcError, WcResult};
use crate::parser::{has_mode, CountMode};
use crate::text::{
    ends_in_word, leading_line_length, lemma_counts_bounded, lemma_line_count_concat,
    lemma_max_line_concat, lemma_word_count_closed, lemma_word_count_concat, line_count,
    max_line_length, max_nat, starts_in_word, trailing_line_length, word_count,
};

verus! {

/// Statistics gathered over one region of bytes.
#[derive(Debug, Clone)]
pub struct WcCounter {
    /// Line terminators seen.
    pub lines: usize,
    /// Words seen.
    pub words: usize,
    /// Length of the region in bytes.
    pub bytes: usize,
    /// Characters seen, where they were asked for.
    pub chars: usize,
    /// Length in bytes of the longest line.
    pub max_line_length: usize,
    /// The source that the record belongs to, once it has one.
    pub filename: Option<String>,
}

/// What a record says, with its numbers as naturals and its label as text.
pub struct Counts {
    pub lines: nat,
    pub words: nat,
    pub bytes: nat,
    pub chars: nat,
    pub max_line_length: nat,
    pub label: Option<Seq<char>>,
}

impl Counts {
    /// The record of nothing.
    pub open spec fn zero() -> Counts {
        Counts { lines: 0, words: 0, bytes: 0, chars: 0, max_line_length: 0, label: None }
    }

    /// The sum of two records: lines, words, bytes and characters add up, the
    /// longest line is the longer of the two, and the label is that of `self`.
    pub open spec fn plus(self, other: Counts) -> Counts {
        Counts {
            lines: self.lines + other.lines,
            words: self.words + other.words,
            bytes: self.bytes + other.bytes,
            chars: self.chars + other.chars,
            max_line_length: max_nat(self.max_line_length, other.max_line_length),
            label: self.label,
        }
    }

    /// Every number can be held in a `usize`.
    pub open spec fn fits(self) -> bool {
        &&& self.lines <= usize::MAX
        &&& self.words <= usize::MAX
        &&& self.bytes <= usize::MAX
        &&& self.chars <= usize::MAX
        &&& self.max_line_length <= usize::MAX
    }

    /// The two records hold the same numbers; their labels may differ.
    pub open spec fn same_numbers(self, other: Counts) -> bool {
        &&& self.lines == other.lines
        &&& self.words == other.words
        &&& self.bytes == other.bytes
        &&& self.chars == other.chars
        &&& self.max_line_length == other.max_line_length
    }
}

impl View for WcCounter {
    type V = Counts;

    open spec fn view(&self) -> Counts {
        Counts {
            lines: self.lines as nat,
            words: self.words as nat,
            bytes: self.bytes as nat,
            chars: self.chars as nat,
            max_line_length: self.max_line_length as nat,
            label: match self.filename {
                Some(name) => Some(name@),
                None => None,
            },
        }
    }
}

impl WcCounter {
    /// An empty record without a label.
    pub fn new() -> (counter: WcCounter)
        ensures
            counter@ == Counts::zero(),
            counter.filename is None,
    {
        WcCounter { lines: 0, words: 0, bytes: 0, chars: 0, max_line_length: 0, filename: None }
    }

    /// A record of the given numbers, brought in line with each other: it has
    /// no more characters than bytes, no line longer than its bytes, and at
    /// least as many words as lines.
    pub fn bounded(
        lines: usize,
        words: usize,
        bytes: usize,
        chars: usize,
        max_line_length: usize,
        filename: Option<String>,
    ) -> (counter: WcCounter)
        ensures
            counter.lines == lines,
            counter.words == max_nat(words as nat, lines as nat),
            counter.bytes == bytes,
            counter.chars == if chars <= bytes {
                chars
            } else {
                bytes
            },
            counter.max_line_length == if max_line_length <= bytes {
                max_line_length
            } else {
                bytes
            },
            counter.filename == filename,
    {
        WcCounter {
            lines,
            words: if words >= lines {
                words
            } else {
                lines
            },
            bytes,
            chars: if chars <= bytes {
                chars
            } else {
                bytes
            },
            max_line_length: if max_line_length <= bytes {
                max_line_length
            } else {
                bytes
            },
            filename,
        }
    }

    /// Adds the numbers of `other` to this record. The label stays.
    pub fn add_counts(&mut self, other: &WcCounter)
        requires
            old(self)@.plus(other@).fits(),
        ensures
            final(self)@ == old(self)@.plus(other@),
            final(self).filename == old(self).filename,
    {
        self.lines = self.lines + other.lines;
        self.words = self.words + other.words;
        self.bytes = self.bytes + other.bytes;
        self.chars = self.chars + other.chars;
        if other.max_line_length > self.max_line_length {
            self.max_line_length = other.max_line_length;
        }
    }
}

impl Default for WcCounter {
    fn default() -> (counter: WcCounter)
        ensures
            counter@ == Counts::zero(),
            counter.filename is None,
    {
        WcCounter::new()
    }
}

impl std::ops::AddAssign<&WcCounter> for WcCounter {
    /// `a += &b` is `a.add_counts(&b)`.
    fn add_assign(&mut self, other: &WcCounter)
        requires
            old(self)@.plus(other@).fits(),
        ensures
            final(self)@ == old(self)@.plus(other@),
            final(self).filename == old(self).filename,
    {
        self.add_counts(other);
    }
}

/// The largest number of bytes that is scanned as one chunk.
pub const CHUNK_SIZE: usize = 1_048_576;

/// The text of a label.
pub open spec fn label_of(filename: Option<String>) -> Option<Seq<char>> {
    match filename {
        Some(name) => Some(name@),
        None => None,
    }
}

/// The record of the buffer `s` under `label`: its line terminators, its
/// words, its length, its longest line and, where `with_chars` asks for them,
/// its characters.
pub open spec fn counts_of(s: Seq<u8>, with_chars: bool, label: Option<Seq<char>>) -> Counts {
    Counts {
        lines: line_count(s),
        words: word_count(s),
        bytes: s.len(),
        chars: if with_chars {
            char_count(s)
        } else {
            0
        },
        max_line_length: max_line_length(s),
        label,
    }
}

/// Counts one buffer that is wholly in memory, and labels the record with
/// `filename`.
///
/// Lines, words, bytes and the longest line are always counted; characters
/// are counted if `modes` holds [`CountMode::Chars`] and are 0 otherwise. No
/// buffer is refused, whatever its bytes: the result is always `Ok`.
///
/// The work is one pass over the bytes of each chunk, one step of merging for
/// each chunk, of which there are no more than bytes, and one pass over
/// `modes`.
pub fn count_bytes(bytes: &[u8], filename: Option<String>, modes: &[CountMode]) -> (result:
    WcResult<WcCounter>)
    ensures
        result matches Ok(counter) && counter@ == counts_of(
            bytes@,
            modes@.contains(CountMode::Chars),
            label_of(filename),
        ) && counter.filename == filename,
{
    let mut counter = scan_in_chunks(bytes, CHUNK_SIZE);
    if has_mode(modes, CountMode::Chars) {
        counter.chars = count_chars(bytes);
    }
    counter.filename = filename;
    Ok(counter)
}

/// What each of `records` says.
pub open spec fn views(records: Seq<WcCounter>) -> Seq<Counts> {
    records.map_values(|r: WcCounter| r@)
}

/// The sum of `records`, added from left to right to the empty record.
pub open spec fn sum_of(records: Seq<Counts>) -> Counts
    decreases records.len(),
{
    if records.len() == 0 {
        Counts::zero()
    } else {
        sum_of(records.drop_last()).plus(records.last())
    }
}

/// The sum of the first records is no larger than the sum of all.
pub proof fn lemma_sum_of_grows(records: Seq<Counts>, n: int)
    requires
        0 <= n <= records.len(),
    ensures
        sum_of(records.take(n)).lines <= sum_of(records).lines,
        sum_of(records.take(n)).words <= sum_of(records).words,
        sum_of(records.take(n)).bytes <= sum_of(records).bytes,
        sum_of(records.take(n)).chars <= sum_of(records).chars,
        sum_of(records.take(n)).max_line_length <= sum_of(records).max_line_length,
    decreases records.len(),
{
    if n == records.len() {
        assert(records.take(n) =~= records);
    } else {
        assert(records.drop_last().take(n) =~= records.take(n));
        lemma_sum_of_grows(records.drop_last(), n);
    }
}

/// The grand total of the records of several sources: lines, words, bytes and
/// characters summed, and the longest line of all. The total has no label, and
/// the records are left as they are.
pub fn total_counts(records: &[WcCounter]) -> (total: WcCounter)
    requires
        sum_of(views(records@)).fits(),
    ensures
        total@ == sum_of(views(records@)),
        total.filename is None,
{
    let mut total = WcCounter::new();
    let mut i: usize = 0;
    while i < records.len()
        invariant
            i <= records.len(),
            sum_of(views(records@)).fits(),
            total@ == sum_of(views(records@).take(i as int)),
            total.filename is None,
        decreases records.len() - i,
    {
        proof {
            let all = views(records@);
            assert(all.take(i + 1).drop_last() =~= all.take(i as int));
            lemma_sum_of_grows(all, i + 1);
        }
        total.add_counts(&records[i]);
        i = i + 1;
    }
    proof {
        let all = views(records@);
        assert(all.take(i as int) =~= all);
    }
    total
}

/// Whether the grand total of `records` can be held in a record, that is
/// whether none of its sums goes beyond `usize`.
pub fn total_fits(records: &[WcCounter]) -> (fits: bool)
    ensures
        fits == sum_of(views(records@)).fits(),
{
    let mut lines: usize = 0;
    let mut words: usize = 0;
    let mut bytes: usize = 0;
    let mut chars: usize = 0;
    let mut i: usize = 0;
    while i < records.len()
        invariant
            i <= records.len(),
            lines == sum_of(views(records@).take(i as int)).lines,
            words == sum_of(views(records@).take(i as int)).words,
            bytes == sum_of(views(records@).take(i as int)).bytes,
            chars == sum_of(views(records@).take(i as int)).chars,
            sum_of(views(records@).take(i as int)).max_line_length <= usize::MAX,
        decreases records.len() - i,
    {
        proof {
            let all = views(records@);
            assert(all.take(i + 1).drop_last() =~= all.take(i as int));
            lemma_sum_of_grows(all, i + 1);
        }
        let record = &records[i];
        match (
            lines.checked_add(record.lines),
            words.checked_add(record.words),
            bytes.checked_add(record.bytes),
            chars.checked_add(record.chars),
        ) {
            (Some(more_lines), Some(more_words), Some(more_bytes), Some(more_chars)) => {
                lines = more_lines;
                words = more_words;
                bytes = more_bytes;
                chars = more_chars;
            },
            _ => {
                return false;
            },
        }
        i = i + 1;
    }
    proof {
        let all = views(records@);
        assert(all.take(i as int) =~= all);
    }
    true
}

/// Fail one, fail all: the records of all sources if every source was
/// counted, else the failure of the first source, in the order given, that was
/// not.
pub fn collect_counts(outcomes: Vec<WcResult<WcCounter>>) -> (result: WcResult<Vec<WcCounter>>)
    ensures
        match result {
            Ok(records) => records@.len() == outcomes@.len() && forall|i: int|
                0 <= i < outcomes@.len() ==> outcomes@[i] == Ok::<WcCounter, WcError>(records@[i]),
            Err(error) => exists|k: int|
                0 <= k < outcomes@.len() && outcomes@[k] == Err::<WcCounter, WcError>(error)
                    && forall|j: int| 0 <= j < k ==> outcomes@[j] is Ok,
        },
{
    let ghost all = outcomes@;
    let mut records: Vec<WcCounter> = Vec::new();
    for outcome in it: outcomes
        invariant
            it.seq() == all,
            records@.len() == it.index(),
            forall|i: int| 0 <= i < it.index() ==> all[i] == Ok::<WcCounter, WcError>(records@[i]),
    {
        match outcome {
            Ok(record) => {
                records.push(record);
            },
            Err(error) => {
                return Err(error);
            },
        }
    }
    Ok(records)
}

/// A record of a buffer never holds more lines, words or characters than
/// bytes, nor a line longer than the buffer.
pub proof fn lemma_counts_within_bytes(s: Seq<u8>, with_chars: bool, label: Option<Seq<char>>)
    ensures
        counts_of(s, with_chars, label).lines <= s.len(),
        counts_of(s, with_chars, label).words <= s.len(),
        counts_of(s, with_chars, label).chars <= s.len(),
        counts_of(s, with_chars, label).max_line_length <= s.len(),
        counts_of(s, with_chars, label).bytes == s.len(),
{
    lemma_counts_bounded(s);
    lemma_word_count_closed(s);
    lemma_char_count_bounded(s);
}

/// The records of two sources, added, against the record of the two sources
/// joined into one: lines and bytes agree; the joined source has one word less
/// if a word runs across the seam; and its longest line is the longest of
/// either source or the line across the seam.
pub proof fn lemma_sum_against_joined(a: Seq<u8>, b: Seq<u8>)
    ensures
        ({
            let sum = counts_of(a, false, None).plus(counts_of(b, false, None));
            let joined = counts_of(a + b, false, None);
            &&& sum.lines == joined.lines
            &&& sum.bytes == joined.bytes
            &&& sum.chars == joined.chars
            &&& sum.words == joined.words + if ends_in_word(a) && starts_in_word(b) {
                1nat
            } else {
                0nat
            }
            &&& joined.max_line_length == max_nat(
                sum.max_line_length,
                trailing_line_length(a) + leading_line_length(b),
            )
        }),
{
    lemma_line_count_concat(a, b);
    lemma_word_count_concat(a, b);
    lemma_max_line_concat(a, b);
}

/// Where no word runs across the seam and the line across the seam is no
/// longer than the longest line of either source, the records of two sources
/// add up to the record of the two sources joined into one.
pub proof fn lemma_sum_is_joined(a: Seq<u8>, b: Seq<u8>)
    requires
        !(ends_in_word(a) && starts_in_word(b)),
        trailing_line_length(a) + leading_line_length(b) <= max_nat(
            max_line_length(a),
            max_line_length(b),
        ),
    ensures
        counts_of(a, false, None).plus(counts_of(b, false, None)).same_numbers(
            counts_of(a + b, false, None),
        ),
{
    lemma_sum_against_joined(a, b);
}

/// Adding three records gives the same numbers in whatever order and grouping
/// they are added: `(a + b) + c` and `(b + c) + a` agree on lines, words, bytes
/// and characters, and on the longest line, which is the longest of the three.
pub proof fn lemma_plus_any_order(a: Counts, b: Counts, c: Counts)
    ensures
        a.plus(b).plus(c).same_numbers(b.plus(c).plus(a)),
        a.plus(b).plus(c).same_numbers(a.plus(b.plus(c))),
        a.plus(b).same_numbers(b.plus(a)),
        a.plus(b).plus(c).max_line_length == max_nat(
            a.max_line_length,
            max_nat(b.max_line_length, c.max_line_length),
        ),
{
}

} // verus!
