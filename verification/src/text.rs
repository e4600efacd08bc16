//! The mathematical reading of a byte sequence: which bytes separate words and
//! lines, and how many lines and words a sequence holds and how long its lines
//! are.
//!
//! Every count is defined by recursion on the prefix of the sequence, so that a
//! count of `s` is the count of `s` without its last byte plus what that last
//! byte contributes. The lemmas say what happens to each count when two
//! sequences are joined, and what each count is in terms of the indices of the
//! sequence: lines are the indices that hold a terminator, words the indices
//! at which a word begins, and the longest line the longest stretch of bytes
//! within one line.
use vstd::prelude::*;

verus! {

/// The line terminator.
pub const NEWLINE: u8 = 0x0a;

/// ASCII whitespace: space, horizontal tab, line feed, vertical tab, form feed
/// and carriage return. No other byte separates words.
pub open spec fn is_space(b: u8) -> bool {
    b == 0x20 || (0x09 <= b && b <= 0x0d)
}

/// Whether `b` is whitespace in the sense of [`is_space`].
pub fn is_whitespace(b: u8) -> (r: bool)
    ensures
        r == is_space(b),
{
    b == 0x20 || (0x09 <= b && b <= 0x0d)
}

/// The larger of two naturals.
pub open spec fn max_nat(a: nat, b: nat) -> nat {
    if a >= b {
        a
    } else {
        b
    }
}

/// `s` is non-empty and its first byte belongs to a word.
pub open spec fn starts_in_word(s: Seq<u8>) -> bool {
    s.len() > 0 && !is_space(s[0])
}

/// `s` is non-empty and its last byte belongs to a word.
pub open spec fn ends_in_word(s: Seq<u8>) -> bool {
    s.len() > 0 && !is_space(s.last())
}

/// The number of line terminators in `s`.
pub open spec fn line_count(s: Seq<u8>) -> nat
    decreases s.len(),
{
    if s.len() == 0 {
        0
    } else {
        line_count(s.drop_last()) + if s.last() == NEWLINE {
            1nat
        } else {
            0nat
        }
    }
}

/// The number of words in `s`: maximal runs of bytes that are not whitespace.
/// A word is counted where it begins, that is at a byte that is not
/// whitespace and has no such byte directly before it.
pub open spec fn word_count(s: Seq<u8>) -> nat
    decreases s.len(),
{
    if s.len() == 0 {
        0
    } else {
        word_count(s.drop_last()) + if !is_space(s.last()) && !ends_in_word(s.drop_last()) {
            1nat
        } else {
            0nat
        }
    }
}

/// The number of words of `s` that are followed by whitespace inside `s`.
/// This is what a scan can see of words without knowing what follows `s`.
pub open spec fn closed_words(s: Seq<u8>) -> nat
    decreases s.len(),
{
    if s.len() == 0 {
        0
    } else {
        closed_words(s.drop_last()) + if is_space(s.last()) && ends_in_word(s.drop_last()) {
            1nat
        } else {
            0nat
        }
    }
}

/// The number of bytes after the last line terminator of `s`; all of `s` if it
/// holds none.
pub open spec fn trailing_line_length(s: Seq<u8>) -> nat
    decreases s.len(),
{
    if s.len() == 0 {
        0
    } else if s.last() == NEWLINE {
        0
    } else {
        trailing_line_length(s.drop_last()) + 1
    }
}

/// The number of bytes up to and including the first line terminator of `s`;
/// all of `s` if it holds none.
pub open spec fn leading_line_length(s: Seq<u8>) -> nat
    decreases s.len(),
{
    if s.len() == 0 {
        0
    } else if line_count(s.drop_last()) > 0 {
        leading_line_length(s.drop_last())
    } else {
        s.len()
    }
}

/// The length of the longest line of `s` that ends with a terminator inside
/// `s`, the terminator included; 0 if `s` holds no terminator.
pub open spec fn max_closed_line(s: Seq<u8>) -> nat
    decreases s.len(),
{
    if s.len() == 0 {
        0
    } else if s.last() == NEWLINE {
        max_nat(max_closed_line(s.drop_last()), trailing_line_length(s.drop_last()) + 1)
    } else {
        max_closed_line(s.drop_last())
    }
}

/// The length of the longest line of `s`. A line runs from the byte after the
/// previous terminator, or from the start, up to and including its own
/// terminator, or up to the end of `s` if it has none.
pub open spec fn max_line_length(s: Seq<u8>) -> nat
    decreases s.len(),
{
    if s.len() == 0 {
        0
    } else {
        max_nat(max_line_length(s.drop_last()), trailing_line_length(s.drop_last()) + 1)
    }
}

/// No byte of `s` at an index in `from..to` is a line terminator.
pub open spec fn no_newline_in(s: Seq<u8>, from: int, to: int) -> bool {
    forall|k: int| from <= k < to && 0 <= k < s.len() ==> s[k] != NEWLINE
}

/// Bytes `from..to` of `s` lie within one line: none of them but the last is
/// a line terminator.
pub open spec fn within_a_line(s: Seq<u8>, from: int, to: int) -> bool {
    0 <= from <= to <= s.len() && no_newline_in(s, from, to - 1)
}

/// The indices of `s` that hold a line terminator.
pub open spec fn newline_positions(s: Seq<u8>) -> Set<int> {
    Set::new(|i: int| 0 <= i < s.len() && s[i] == NEWLINE)
}

/// A word of `s` begins at index `i`: the byte there is not whitespace, and
/// it is the first byte or the byte before it is whitespace.
pub open spec fn word_starts_at(s: Seq<u8>, i: int) -> bool {
    0 <= i < s.len() && !is_space(s[i]) && (i == 0 || is_space(s[i - 1]))
}

/// The indices of `s` at which a word begins.
pub open spec fn word_starts(s: Seq<u8>) -> Set<int> {
    Set::new(|i: int| word_starts_at(s, i))
}

/// None of the counts exceeds the number of bytes.
pub proof fn lemma_counts_bounded(s: Seq<u8>)
    ensures
        line_count(s) <= s.len(),
        closed_words(s) + (if ends_in_word(s) { 1nat } else { 0nat }) <= s.len(),
        trailing_line_length(s) <= s.len(),
        leading_line_length(s) <= s.len(),
        max_closed_line(s) <= s.len(),
        max_line_length(s) <= s.len(),
        line_count(s) == 0 ==> trailing_line_length(s) == s.len(),
        line_count(s) == 0 ==> leading_line_length(s) == s.len(),
        line_count(s) == 0 ==> max_closed_line(s) == 0,
        line_count(s) > 0 ==> leading_line_length(s) >= 1,
    decreases s.len(),
{
    if s.len() > 0 {
        lemma_counts_bounded(s.drop_last());
    }
}

/// A word that is not followed by whitespace is the one that `s` ends in: the
/// words of `s` are those closed inside it, and one more if `s` ends in a word.
pub proof fn lemma_word_count_closed(s: Seq<u8>)
    ensures
        word_count(s) == closed_words(s) + if ends_in_word(s) {
            1nat
        } else {
            0nat
        },
    decreases s.len(),
{
    if s.len() > 0 {
        lemma_word_count_closed(s.drop_last());
    }
}

/// The longest line is the longest closed line or the unterminated rest,
/// whichever is longer.
pub proof fn lemma_max_line_closed(s: Seq<u8>)
    ensures
        max_line_length(s) == max_nat(max_closed_line(s), trailing_line_length(s)),
    decreases s.len(),
{
    if s.len() > 0 {
        lemma_max_line_closed(s.drop_last());
    }
}

/// Joining `b` to `a` with its last byte removed is the join without its last
/// byte.
proof fn lemma_concat_drop_last(a: Seq<u8>, b: Seq<u8>)
    requires
        b.len() > 0,
    ensures
        (a + b).drop_last() == a + b.drop_last(),
        (a + b).last() == b.last(),
{
}

/// Line terminators of a join: those of both parts.
pub proof fn lemma_line_count_concat(a: Seq<u8>, b: Seq<u8>)
    ensures
        line_count(a + b) == line_count(a) + line_count(b),
    decreases b.len(),
{
    if b.len() > 0 {
        lemma_concat_drop_last(a, b);
        lemma_line_count_concat(a, b.drop_last());
    }
}

/// Whether a join starts or ends in a word is decided by the first part that
/// is not empty from that side.
pub proof fn lemma_edges_concat(a: Seq<u8>, b: Seq<u8>)
    ensures
        starts_in_word(a + b) == if a.len() > 0 {
            starts_in_word(a)
        } else {
            starts_in_word(b)
        },
        ends_in_word(a + b) == if b.len() > 0 {
            ends_in_word(b)
        } else {
            ends_in_word(a)
        },
{
}

/// Closed words of a join: those of both parts, and the word that `a` ends in
/// if `b` begins with whitespace.
pub proof fn lemma_closed_words_concat(a: Seq<u8>, b: Seq<u8>)
    ensures
        closed_words(a + b) == closed_words(a) + closed_words(b) + if ends_in_word(a) && b.len() > 0
            && !starts_in_word(b) {
            1nat
        } else {
            0nat
        },
    decreases b.len(),
{
    if b.len() > 0 {
        lemma_concat_drop_last(a, b);
        lemma_closed_words_concat(a, b.drop_last());
    }
}

/// Words of a join: those of both parts, less one if a word runs across the
/// seam.
pub proof fn lemma_word_count_concat(a: Seq<u8>, b: Seq<u8>)
    ensures
        word_count(a + b) + (if ends_in_word(a) && starts_in_word(b) {
            1nat
        } else {
            0nat
        }) == word_count(a) + word_count(b),
{
    lemma_word_count_closed(a);
    lemma_word_count_closed(b);
    lemma_word_count_closed(a + b);
    lemma_closed_words_concat(a, b);
}

/// The unterminated rest of a join: that of `b` if `b` holds a terminator,
/// else that of `a` and all of `b`.
pub proof fn lemma_trailing_concat(a: Seq<u8>, b: Seq<u8>)
    ensures
        trailing_line_length(a + b) == if line_count(b) > 0 {
            trailing_line_length(b)
        } else {
            trailing_line_length(a) + b.len()
        },
    decreases b.len(),
{
    if b.len() > 0 {
        lemma_concat_drop_last(a, b);
        lemma_trailing_concat(a, b.drop_last());
    }
}

/// The first line of a join: that of `a` if `a` holds a terminator, else all
/// of `a` and the first line of `b`.
pub proof fn lemma_leading_concat(a: Seq<u8>, b: Seq<u8>)
    ensures
        leading_line_length(a + b) == if line_count(a) > 0 {
            leading_line_length(a)
        } else {
            a.len() + leading_line_length(b)
        },
    decreases b.len(),
{
    if b.len() > 0 {
        lemma_concat_drop_last(a, b);
        lemma_leading_concat(a, b.drop_last());
        lemma_line_count_concat(a, b.drop_last());
    }
}

/// The longest closed line of a join: the longest of either part, or the line
/// across the seam, which is closed as soon as `b` holds a terminator.
pub proof fn lemma_max_closed_concat(a: Seq<u8>, b: Seq<u8>)
    ensures
        max_closed_line(a + b) == max_nat(
            max_nat(max_closed_line(a), max_closed_line(b)),
            if line_count(b) > 0 {
                trailing_line_length(a) + leading_line_length(b)
            } else {
                0
            },
        ),
    decreases b.len(),
{
    if b.len() > 0 {
        lemma_concat_drop_last(a, b);
        lemma_max_closed_concat(a, b.drop_last());
        lemma_trailing_concat(a, b.drop_last());
        lemma_counts_bounded(b.drop_last());
    }
}

/// The longest line of a join: the longest of either part, or the line across
/// the seam.
pub proof fn lemma_max_line_concat(a: Seq<u8>, b: Seq<u8>)
    ensures
        max_line_length(a + b) == max_nat(
            max_nat(max_line_length(a), max_line_length(b)),
            trailing_line_length(a) + leading_line_length(b),
        ),
{
    lemma_max_line_closed(a);
    lemma_max_line_closed(b);
    lemma_max_line_closed(a + b);
    lemma_max_closed_concat(a, b);
    lemma_trailing_concat(a, b);
    lemma_counts_bounded(b);
}

/// The first line is a line: it is no longer than the longest.
pub proof fn lemma_leading_in_max(s: Seq<u8>)
    ensures
        leading_line_length(s) <= max_line_length(s),
        line_count(s) > 0 ==> leading_line_length(s) <= max_closed_line(s),
    decreases s.len(),
{
    if s.len() > 0 {
        lemma_leading_in_max(s.drop_last());
        lemma_counts_bounded(s.drop_last());
    }
}

/// The lines of `s` are as many as the bytes of `s` that are line
/// terminators.
pub proof fn lemma_line_count_is_number_of_terminators(s: Seq<u8>)
    ensures
        newline_positions(s).finite(),
        line_count(s) == newline_positions(s).len(),
    decreases s.len(),
{
    if s.len() == 0 {
        assert(newline_positions(s) =~= Set::<int>::empty());
    } else {
        let shorter = s.drop_last();
        let last = s.len() - 1;
        lemma_line_count_is_number_of_terminators(shorter);
        if s.last() == NEWLINE {
            assert(newline_positions(s) =~= newline_positions(shorter).insert(last));
        } else {
            assert(newline_positions(s) =~= newline_positions(shorter));
        }
    }
}

/// The words of `s` are as many as the indices at which a word begins.
pub proof fn lemma_word_count_is_number_of_starts(s: Seq<u8>)
    ensures
        word_starts(s).finite(),
        word_count(s) == word_starts(s).len(),
    decreases s.len(),
{
    if s.len() == 0 {
        assert(word_starts(s) =~= Set::<int>::empty());
    } else {
        let shorter = s.drop_last();
        let last = s.len() - 1;
        lemma_word_count_is_number_of_starts(shorter);
        assert forall|i: int| 0 <= i < last implies word_starts_at(s, i) == word_starts_at(
            shorter,
            i,
        ) by {}
        if !is_space(s.last()) && !ends_in_word(shorter) {
            assert(word_starts(s) =~= word_starts(shorter).insert(last));
        } else {
            assert(word_starts(s) =~= word_starts(shorter));
        }
    }
}

/// What holds no terminator in `s` without its last byte holds none in `s`,
/// as long as the last byte is not part of it.
proof fn lemma_no_newline_kept(s: Seq<u8>, from: int, to: int)
    requires
        s.len() > 0,
        to <= s.len() - 1,
        no_newline_in(s.drop_last(), from, to),
    ensures
        no_newline_in(s, from, to),
{
    assert forall|k: int| from <= k < to && 0 <= k < s.len() implies s[k] != NEWLINE by {
        assert(s.drop_last()[k] == s[k]);
    }
}

/// The unterminated rest of `s` is what follows its last terminator: it holds
/// no terminator, and the byte before it, if there is one, is a terminator.
pub proof fn lemma_trailing_is_rest(s: Seq<u8>)
    ensures
        no_newline_in(s, s.len() - trailing_line_length(s), s.len() as int),
        trailing_line_length(s) < s.len() ==> s[s.len() - trailing_line_length(s) - 1] == NEWLINE,
    decreases s.len(),
{
    if s.len() > 0 && s.last() != NEWLINE {
        let shorter = s.drop_last();
        lemma_trailing_is_rest(shorter);
        lemma_no_newline_kept(s, shorter.len() - trailing_line_length(shorter), s.len() - 1);
    }
}

/// The first line of `s` is what comes up to its first terminator: no byte
/// before its last is a terminator, and its last is one if `s` holds any.
pub proof fn lemma_leading_is_first_line(s: Seq<u8>)
    ensures
        no_newline_in(s, 0, leading_line_length(s) - 1),
        line_count(s) > 0 ==> 1 <= leading_line_length(s) && s[leading_line_length(s) - 1]
            == NEWLINE,
        line_count(s) == 0 ==> leading_line_length(s) == s.len() && no_newline_in(
            s,
            0,
            s.len() as int,
        ),
    decreases s.len(),
{
    if s.len() > 0 {
        let shorter = s.drop_last();
        lemma_leading_is_first_line(shorter);
        lemma_counts_bounded(shorter);
        if line_count(shorter) > 0 {
            lemma_no_newline_kept(s, 0, leading_line_length(shorter) - 1);
        } else {
            lemma_no_newline_kept(s, 0, s.len() - 1);
        }
    }
}

/// No stretch of bytes that lies within one line is longer than the longest
/// line.
pub proof fn lemma_no_line_is_longer(s: Seq<u8>, from: int, to: int)
    requires
        within_a_line(s, from, to),
    ensures
        to - from <= max_line_length(s),
    decreases s.len(),
{
    if from < to {
        let shorter = s.drop_last();
        if to < s.len() {
            assert forall|k: int| from <= k < to - 1 && 0 <= k < shorter.len() implies shorter[k]
                != NEWLINE by {}
            lemma_no_line_is_longer(shorter, from, to);
        } else {
            lemma_trailing_is_rest(shorter);
        }
    }
}

/// The longest line is the length of a line: some stretch of bytes that lies
/// within one line is that long.
pub proof fn lemma_longest_line_exists(s: Seq<u8>) -> (span: (int, int))
    ensures
        within_a_line(s, span.0, span.1),
        span.1 - span.0 == max_line_length(s),
    decreases s.len(),
{
    if s.len() == 0 {
        (0, 0)
    } else {
        let shorter = s.drop_last();
        lemma_counts_bounded(shorter);
        if trailing_line_length(shorter) + 1 >= max_line_length(shorter) {
            lemma_trailing_is_rest(shorter);
            let from = shorter.len() - trailing_line_length(shorter);
            lemma_no_newline_kept(s, from, s.len() - 1);
            (from, s.len() as int)
        } else {
            let span = lemma_longest_line_exists(shorter);
            lemma_no_newline_kept(s, span.0, span.1 - 1);
            span
        }
    }
}

} // verus!
