use rs_wc::chars::count_chars;
use rs_wc::chunk::{merge_chunks, process_chunk, scan_in_chunks, BoundaryContext, ChunkStats};
use rs_wc::counter::{
    collect_counts, count_bytes, total_counts, WcCounter, CHUNK_SIZE,
};
use rs_wc::error::{WcError, WcResult};
use rs_wc::parser::CountMode;
use rs_wc::text::is_whitespace;

fn is_space(b: u8) -> bool {
    matches!(b, b' ' | b'\t' | b'\n' | 0x0b | 0x0c | b'\r')
}

/// Lines, words and longest line of `bytes`, counted the slow and obvious way.
fn by_hand(bytes: &[u8]) -> (usize, usize, usize) {
    let lines = bytes.iter().filter(|&&b| b == b'\n').count();
    let mut words = 0;
    for i in 0..bytes.len() {
        if !is_space(bytes[i]) && (i == 0 || is_space(bytes[i - 1])) {
            words += 1;
        }
    }
    let mut longest = 0;
    let mut start = 0;
    for i in 0..bytes.len() {
        if bytes[i] == b'\n' {
            longest = longest.max(i + 1 - start);
            start = i + 1;
        }
    }
    longest = longest.max(bytes.len() - start);
    (lines, words, longest)
}

fn samples() -> Vec<Vec<u8>> {
    vec![
        b"".to_vec(),
        b"a".to_vec(),
        b" ".to_vec(),
        b"\n".to_vec(),
        b"hello world".to_vec(),
        b"Hello world\nThis is a test\n".to_vec(),
        b"  leading and trailing  ".to_vec(),
        b"one\n\n\nthree blank lines before\nno terminator".to_vec(),
        b"a\nbb\nccc\ndddd\neeeee".to_vec(),
        b"looooooooooooooooooooooooooong\nx\n".to_vec(),
        b"tab\tseparated\x0bvertical\x0cfeed\rreturn".to_vec(),
        vec![0xff, 0xfe, b' ', 0x80, b'\n', 0xc0, 0x80],
        "こんにちは 世界\nさようなら\n".as_bytes().to_vec(),
        b"\n\n\n\n".to_vec(),
        b"x\n".to_vec(),
        b"word".to_vec(),
    ]
}

fn counter_of(
    lines: usize,
    words: usize,
    bytes: usize,
    chars: usize,
    max_line_length: usize,
    filename: Option<&str>,
) -> WcCounter {
    WcCounter {
        lines,
        words,
        bytes,
        chars,
        max_line_length,
        filename: filename.map(str::to_string),
    }
}

fn scan_whole(bytes: &[u8]) -> WcCounter {
    count_bytes(bytes, None, &[CountMode::Lines, CountMode::Words, CountMode::Bytes]).unwrap()
}

#[test]
fn any_bytes_are_counted() {
    let inputs: Vec<Vec<u8>> = vec![
        vec![],
        vec![0x00],
        vec![0xff; 17],
        vec![0xc3, 0x28, 0xa0, 0xa1, 0xe2, 0x28, 0xa1],
        (0u8..=255).collect(),
    ];
    for input in &inputs {
        let result = count_bytes(input, None, &[CountMode::Bytes]);
        assert!(result.is_ok());
        assert_eq!(result.unwrap().bytes, input.len());
    }
}

#[test]
fn every_byte_value_is_counted_as_by_hand() {
    let input: Vec<u8> = (0u8..=255).chain(0u8..=255).collect();
    let (lines, words, longest) = by_hand(&input);
    let counted = scan_whole(&input);
    assert_eq!(counted.lines, lines);
    assert_eq!(counted.words, words);
    assert_eq!(counted.max_line_length, longest);
    assert_eq!(counted.lines, 2);
    assert_eq!(counted.bytes, 512);
}

#[test]
fn whole_scan_agrees_with_count_by_hand() {
    for input in samples() {
        let (lines, words, longest) = by_hand(&input);
        let counted = scan_whole(&input);
        assert_eq!(counted.lines, lines, "lines of {:?}", input);
        assert_eq!(counted.words, words, "words of {:?}", input);
        assert_eq!(counted.max_line_length, longest, "longest line of {:?}", input);
        assert_eq!(counted.bytes, input.len());
        assert_eq!(counted.chars, 0);
        assert!(counted.filename.is_none());
    }
}

#[test]
fn result_does_not_depend_on_chunk_size() {
    for input in samples() {
        let whole = scan_in_chunks(&input, input.len() + 1);
        for size in 1..=input.len() + 1 {
            let chunked = scan_in_chunks(&input, size);
            assert_eq!(chunked.lines, whole.lines, "lines of {:?} by {}", input, size);
            assert_eq!(chunked.words, whole.words, "words of {:?} by {}", input, size);
            assert_eq!(
                chunked.max_line_length, whole.max_line_length,
                "longest line of {:?} by {}",
                input, size
            );
            assert_eq!(chunked.bytes, input.len());
        }
    }
}

#[test]
fn scan_in_chunks_exact_values() {
    let input = b"ab cd\nefgh ij\nk";
    for size in 1..=input.len() + 1 {
        let counted = scan_in_chunks(input, size);
        assert_eq!(counted.lines, 2);
        assert_eq!(counted.words, 5);
        assert_eq!(counted.bytes, 15);
        assert_eq!(counted.max_line_length, 8);
        assert_eq!(counted.chars, 0);
    }
}

#[test]
fn lines_are_terminators() {
    assert_eq!(scan_whole(b"a\nb\n").lines, 2);
    assert_eq!(scan_whole(b"a\nb").lines, 1);
    assert_eq!(scan_whole(b"a\nb\n").words, 2);
    assert_eq!(scan_whole(b"a\nb").words, 2);
    assert_eq!(scan_whole(b"").lines, 0);
    assert_eq!(scan_whole(b"no terminator").lines, 0);
    assert_eq!(scan_whole(b"\n").lines, 1);
    assert_eq!(scan_whole(b"\r\n\r\n").lines, 2);
}

#[test]
fn hello_world_cut_anywhere_has_two_words() {
    let text = b"hello world";
    assert_eq!(scan_whole(text).words, 2);
    for offset in 1..=10 {
        let parts = [process_chunk(&text[..offset]), process_chunk(&text[offset..])];
        let merged = merge_chunks(&parts);
        assert_eq!(merged.words, 2, "split at {}", offset);
        assert_eq!(merged.lines, 0);
        assert_eq!(merged.bytes, 11);
        assert_eq!(merged.max_line_length, 11);
    }
}

#[test]
fn every_split_in_two_merges_to_the_whole() {
    for input in samples() {
        let (lines, words, longest) = by_hand(&input);
        for offset in 0..=input.len() {
            let parts = [process_chunk(&input[..offset]), process_chunk(&input[offset..])];
            let merged = merge_chunks(&parts);
            assert_eq!(merged.lines, lines, "{:?} at {}", input, offset);
            assert_eq!(merged.words, words, "{:?} at {}", input, offset);
            assert_eq!(merged.max_line_length, longest, "{:?} at {}", input, offset);
            assert_eq!(merged.bytes, input.len());
        }
    }
}

#[test]
fn every_split_in_three_merges_to_the_whole() {
    let input = b"ab  cd\n\nefg hi\njklmnop q";
    let (lines, words, longest) = by_hand(input);
    for first in 0..=input.len() {
        for second in first..=input.len() {
            let parts = [
                process_chunk(&input[..first]),
                process_chunk(&input[first..second]),
                process_chunk(&input[second..]),
            ];
            let merged = merge_chunks(&parts);
            assert_eq!(merged.lines, lines);
            assert_eq!(merged.words, words);
            assert_eq!(merged.max_line_length, longest);
            assert_eq!(merged.bytes, input.len());
        }
    }
}

#[test]
fn merge_is_the_scan_of_the_join() {
    for left in samples() {
        for right in samples() {
            let mut joined = left.clone();
            joined.extend_from_slice(&right);
            let mut merged = process_chunk(&left);
            merged.merge(&process_chunk(&right));
            let whole = process_chunk(&joined);
            assert_eq!(merged.counter.lines, whole.counter.lines);
            assert_eq!(merged.counter.words, whole.counter.words);
            assert_eq!(merged.counter.bytes, whole.counter.bytes);
            assert_eq!(merged.counter.chars, whole.counter.chars);
            assert_eq!(merged.counter.max_line_length, whole.counter.max_line_length);
            assert_eq!(merged.boundary, whole.boundary);
        }
    }
}

#[test]
fn multibyte_characters_count_once() {
    let text = "こんにちは世界\n";
    let result = count_bytes(text.as_bytes(), None, &[CountMode::Chars]).unwrap();
    assert_eq!(result.chars, 8);
    assert_eq!(result.bytes, 22);
    assert_eq!(result.lines, 1);
    assert_eq!(result.words, 1);
    assert_eq!(result.max_line_length, 22);
}

#[test]
fn characters_only_when_asked_for() {
    let text = "héllo wörld\n";
    let without = count_bytes(text.as_bytes(), None, &[CountMode::Lines]).unwrap();
    assert_eq!(without.chars, 0);
    let with = count_bytes(text.as_bytes(), None, &[CountMode::Lines, CountMode::Chars]).unwrap();
    assert_eq!(with.chars, 12);
    assert_eq!(with.bytes, 14);
}

#[test]
fn invalid_utf8_falls_back_to_bytes() {
    let input = [b'a', 0xff, b'b', b'\n'];
    let result = count_bytes(&input, None, &[CountMode::Chars]).unwrap();
    assert_eq!(result.chars, 4);
    assert_eq!(count_chars(&input), 4);
    // a sequence cut in the middle of a character is not valid either
    let cut = &"世界".as_bytes()[..4];
    assert_eq!(count_chars(cut), 4);
    // nor are a surrogate and an overlong encoding
    assert_eq!(count_chars(&[0xed, 0xa0, 0x80]), 3);
    assert_eq!(count_chars(&[0xc0, 0x80]), 2);
}

#[test]
fn count_chars_exact() {
    assert_eq!(count_chars(b""), 0);
    assert_eq!(count_chars(b"abc"), 3);
    assert_eq!(count_chars("é".as_bytes()), 1);
    assert_eq!(count_chars("世界".as_bytes()), 2);
    assert_eq!(count_chars("🦀".as_bytes()), 1);
    assert_eq!(count_chars("a🦀é世".as_bytes()), 4);
}

#[test]
fn characters_never_exceed_bytes() {
    for input in samples() {
        let result = count_bytes(&input, None, &[CountMode::Chars]).unwrap();
        assert!(result.chars <= result.bytes);
        assert!(result.lines <= result.bytes);
        assert!(result.words <= result.bytes);
        assert!(result.max_line_length <= result.bytes);
    }
}

#[test]
fn adding_in_any_order_gives_the_same() {
    let a = counter_of(1, 2, 3, 4, 9, Some("a"));
    let b = counter_of(10, 20, 30, 40, 5, None);
    let c = counter_of(100, 200, 300, 400, 7, Some("c"));

    let mut sum1 = a.clone();
    sum1 += &b;
    sum1 += &c;

    let mut sum2 = b.clone();
    sum2 += &c;
    sum2 += &a;

    assert_eq!(sum1.lines, 111);
    assert_eq!(sum1.words, 222);
    assert_eq!(sum1.bytes, 333);
    assert_eq!(sum1.chars, 444);
    assert_eq!(sum1.max_line_length, 9);
    assert_eq!(sum1.lines, sum2.lines);
    assert_eq!(sum1.words, sum2.words);
    assert_eq!(sum1.bytes, sum2.bytes);
    assert_eq!(sum1.chars, sum2.chars);
    assert_eq!(sum1.max_line_length, sum2.max_line_length);
    // the label is that of the record that was added to
    assert_eq!(sum1.filename, Some("a".to_string()));
    assert_eq!(sum2.filename, None);
}

#[test]
fn add_counts_is_add_assign() {
    let other = counter_of(5, 15, 25, 35, 60, None);
    let mut by_method = counter_of(10, 20, 30, 40, 50, None);
    by_method.add_counts(&other);
    assert_eq!(by_method.lines, 15);
    assert_eq!(by_method.words, 35);
    assert_eq!(by_method.bytes, 55);
    assert_eq!(by_method.chars, 75);
    assert_eq!(by_method.max_line_length, 60);
}

#[test]
fn two_sources_add_up_to_their_join() {
    let first = b"one two\nthree\n";
    let second = b"four five six\n";
    let a = scan_whole(first);
    let b = scan_whole(second);
    assert_eq!((a.lines, a.words, a.bytes, a.max_line_length), (2, 3, 14, 8));
    assert_eq!((b.lines, b.words, b.bytes, b.max_line_length), (1, 3, 14, 14));

    let mut joined = first.to_vec();
    joined.extend_from_slice(second);
    let whole = scan_whole(&joined);
    let total = total_counts(&[a, b]);
    assert_eq!(total.lines, whole.lines);
    assert_eq!(total.words, whole.words);
    assert_eq!(total.bytes, whole.bytes);
    assert_eq!(total.max_line_length, whole.max_line_length);
    assert_eq!((total.lines, total.words, total.bytes, total.max_line_length), (3, 6, 28, 14));
    assert!(total.filename.is_none());
}

#[test]
fn two_sources_with_a_word_across_the_seam() {
    // the word and the line that run across the seam make the joined source
    // differ from the sum
    let first = b"alpha be";
    let second = b"ta gamma\n";
    let a = scan_whole(first);
    let b = scan_whole(second);
    let mut joined = first.to_vec();
    joined.extend_from_slice(second);
    let whole = scan_whole(&joined);
    let total = total_counts(&[a, b]);
    assert_eq!(total.lines, whole.lines);
    assert_eq!(total.bytes, whole.bytes);
    assert_eq!(total.words, 4);
    assert_eq!(whole.words, 3);
    assert_eq!(total.max_line_length, 9);
    assert_eq!(whole.max_line_length, 17);
}

#[test]
fn total_counts_of_none_is_empty() {
    let total = total_counts(&[]);
    assert_eq!(total.lines, 0);
    assert_eq!(total.words, 0);
    assert_eq!(total.bytes, 0);
    assert_eq!(total.chars, 0);
    assert_eq!(total.max_line_length, 0);
    assert!(total.filename.is_none());
}

#[test]
fn total_counts_leaves_records_alone() {
    let records = [
        counter_of(1, 2, 3, 3, 2, Some("a")),
        counter_of(4, 5, 6, 6, 5, Some("b")),
        counter_of(7, 8, 9, 9, 1, None),
    ];
    let total = total_counts(&records);
    assert_eq!((total.lines, total.words, total.bytes, total.chars), (12, 15, 18, 18));
    assert_eq!(total.max_line_length, 5);
    assert!(total.filename.is_none());
    assert_eq!(records[0].lines, 1);
    assert_eq!(records[0].filename, Some("a".to_string()));
    assert_eq!(records[1].bytes, 6);
}

#[test]
fn empty_chunk() {
    let stats = process_chunk(b"");
    assert_eq!(stats.counter.lines, 0);
    assert_eq!(stats.counter.words, 0);
    assert_eq!(stats.counter.bytes, 0);
    assert_eq!(stats.counter.chars, 0);
    assert_eq!(stats.counter.max_line_length, 0);
    assert!(stats.counter.filename.is_none());
    assert!(!stats.boundary.starts_in_word);
    assert!(!stats.boundary.ends_in_word);
    assert_eq!(stats.boundary.trailing_line_length, 0);
    assert_eq!(stats.boundary.leading_line_length, 0);

    let empty = ChunkStats::empty();
    assert_eq!(empty.counter.bytes, 0);
    assert_eq!(empty.boundary, stats.boundary);
}

#[test]
fn chunk_scan_exact() {
    let stats = process_chunk(b"lo wor\nld and\nmo");
    // "lo" and "ld", "and" are closed by whitespace; "wor" by the terminator
    assert_eq!(stats.counter.lines, 2);
    assert_eq!(stats.counter.words, 4);
    assert_eq!(stats.counter.bytes, 16);
    assert_eq!(stats.counter.chars, 0);
    assert_eq!(stats.counter.max_line_length, 7);
    assert_eq!(
        stats.boundary,
        BoundaryContext {
            starts_in_word: true,
            ends_in_word: true,
            leading_line_length: 7,
            trailing_line_length: 2,
        }
    );
}

#[test]
fn chunk_without_terminator() {
    let stats = process_chunk(b" abc ");
    assert_eq!(stats.counter.lines, 0);
    assert_eq!(stats.counter.words, 1);
    assert_eq!(stats.counter.max_line_length, 0);
    assert_eq!(
        stats.boundary,
        BoundaryContext {
            starts_in_word: false,
            ends_in_word: false,
            leading_line_length: 5,
            trailing_line_length: 5,
        }
    );
}

#[test]
fn into_counter_counts_open_word_and_line() {
    let counter = process_chunk(b"ab\ncdefg").into_counter();
    assert_eq!(counter.lines, 1);
    assert_eq!(counter.words, 2);
    assert_eq!(counter.bytes, 8);
    assert_eq!(counter.max_line_length, 5);
}

#[test]
fn merge_counts_word_at_the_seam_once() {
    // the left chunk ends exactly where its word ends
    let parts = [process_chunk(b"hello"), process_chunk(b" world")];
    assert_eq!(parts[0].counter.words, 0);
    assert_eq!(parts[1].counter.words, 0);
    assert_eq!(merge_chunks(&parts).words, 2);
    // the word goes on in the right chunk
    let parts = [process_chunk(b"hel"), process_chunk(b"lo world")];
    assert_eq!(merge_chunks(&parts).words, 2);
    // a word longer than two chunks
    let parts = [
        process_chunk(b"ab"),
        process_chunk(b"cd"),
        process_chunk(b"ef"),
        process_chunk(b" g"),
    ];
    assert_eq!(merge_chunks(&parts).words, 2);
}

#[test]
fn merge_line_across_several_chunks() {
    let parts = [
        process_chunk(b"x\nab"),
        process_chunk(b"cdef"),
        process_chunk(b"gh"),
        process_chunk(b"i\nyz"),
    ];
    let merged = merge_chunks(&parts);
    assert_eq!(merged.lines, 2);
    assert_eq!(merged.max_line_length, 10);
    assert_eq!(merged.words, 3);
    assert_eq!(merged.bytes, 14);
}

#[test]
fn merge_chunks_of_none_is_empty() {
    let merged = merge_chunks(&[]);
    assert_eq!(merged.lines, 0);
    assert_eq!(merged.words, 0);
    assert_eq!(merged.bytes, 0);
    assert_eq!(merged.max_line_length, 0);
}

#[test]
fn whitespace_classification() {
    for b in 0u8..=255 {
        assert_eq!(is_whitespace(b), is_space(b), "byte {}", b);
    }
    assert!(is_whitespace(0x0b));
    assert!(is_whitespace(0x0c));
    assert!(!is_whitespace(0x00));
    assert!(!is_whitespace(0x85));
    assert!(!is_whitespace(0xa0));
    assert_eq!(scan_whole(b"a\x0bb\x0cc\rd\te f").words, 6);
    assert_eq!(scan_whole(&[b'a', 0xa0, b'b', 0x85, b'c']).words, 1);
}

#[test]
fn longest_line_includes_terminator_and_open_rest() {
    assert_eq!(scan_whole(b"abc\n").max_line_length, 4);
    assert_eq!(scan_whole(b"abc").max_line_length, 3);
    assert_eq!(scan_whole(b"ab\ncde").max_line_length, 3);
    assert_eq!(scan_whole(b"ab\ncdef").max_line_length, 4);
    assert_eq!(scan_whole(b"\n\n").max_line_length, 1);
    assert_eq!(scan_whole(b"").max_line_length, 0);
}

#[test]
fn count_bytes_labels_the_record() {
    let result = count_bytes(b"x y\n", Some("notes.txt".to_string()), &[CountMode::Words]).unwrap();
    assert_eq!(result.filename, Some("notes.txt".to_string()));
    assert_eq!(result.words, 2);
    let result = count_bytes(b"x y\n", None, &[]).unwrap();
    assert_eq!(result.filename, None);
    assert_eq!((result.lines, result.words, result.bytes, result.chars), (1, 2, 4, 0));
}

#[test]
fn buffer_larger_than_a_chunk() {
    // a word and a line run across each seam between chunks
    let mut input = vec![b'a'; 2 * CHUNK_SIZE + 10];
    input[5] = b' ';
    input[100] = b'\n';
    input[CHUNK_SIZE + 7] = b'\t';
    input[2 * CHUNK_SIZE + 3] = b'\n';
    let (lines, words, longest) = by_hand(&input);
    assert_eq!(lines, 2);
    assert_eq!(words, 5);
    assert_eq!(longest, 2 * CHUNK_SIZE + 3 - 100);
    let result =
        count_bytes(&input, None, &[CountMode::Lines, CountMode::Words, CountMode::Chars]).unwrap();
    assert_eq!(result.lines, lines);
    assert_eq!(result.words, words);
    assert_eq!(result.max_line_length, longest);
    assert_eq!(result.bytes, input.len());
    assert_eq!(result.chars, input.len());
}

#[test]
fn buffer_of_exactly_whole_chunks() {
    let mut input = vec![b'x'; 2 * CHUNK_SIZE];
    input[CHUNK_SIZE - 1] = b' ';
    input[CHUNK_SIZE] = b'\n';
    let (lines, words, longest) = by_hand(&input);
    let result = scan_whole(&input);
    assert_eq!((result.lines, result.words, result.max_line_length), (lines, words, longest));
    assert_eq!((lines, words, longest), (1, 2, CHUNK_SIZE + 1));
}

fn record(name: &str, lines: usize) -> WcCounter {
    counter_of(lines, 0, 0, 0, 0, Some(name))
}

#[test]
fn collect_counts_all_counted() {
    let outcomes: Vec<WcResult<WcCounter>> =
        vec![Ok(record("a", 1)), Ok(record("b", 2)), Ok(record("c", 3))];
    let records = collect_counts(outcomes).unwrap();
    assert_eq!(records.len(), 3);
    assert_eq!(records[0].filename, Some("a".to_string()));
    assert_eq!(records[1].filename, Some("b".to_string()));
    assert_eq!(records[2].filename, Some("c".to_string()));
    assert_eq!(records[2].lines, 3);
}

#[test]
fn collect_counts_of_none() {
    let records = collect_counts(vec![]).unwrap();
    assert!(records.is_empty());
}

#[test]
fn collect_counts_first_failure_wins() {
    let outcomes: Vec<WcResult<WcCounter>> = vec![
        Ok(record("a", 1)),
        Err(WcError::file_not_found("b")),
        Ok(record("c", 3)),
        Err(WcError::permission_denied("d")),
    ];
    let error = collect_counts(outcomes).unwrap_err();
    assert!(matches!(error, WcError::FileNotFound(name) if name == "b"));

    let outcomes: Vec<WcResult<WcCounter>> = vec![
        Err(WcError::permission_denied("d")),
        Err(WcError::file_not_found("b")),
    ];
    let error = collect_counts(outcomes).unwrap_err();
    assert!(matches!(error, WcError::PermissionDenied(name) if name == "d"));
}

#[test]
fn bounded_record() {
    let counter = WcCounter::bounded(5, 3, 10, 12, 11, Some("f".to_string()));
    assert_eq!(counter.lines, 5);
    assert_eq!(counter.words, 5);
    assert_eq!(counter.bytes, 10);
    assert_eq!(counter.chars, 10);
    assert_eq!(counter.max_line_length, 10);
    assert_eq!(counter.filename, Some("f".to_string()));

    let counter = WcCounter::bounded(2, 7, 10, 4, 3, None);
    assert_eq!(counter.words, 7);
    assert_eq!(counter.chars, 4);
    assert_eq!(counter.max_line_length, 3);
    assert_eq!(counter.filename, None);
}

#[test]
fn default_record_is_empty() {
    let counter = WcCounter::default();
    assert_eq!(counter.lines, 0);
    assert_eq!(counter.words, 0);
    assert_eq!(counter.bytes, 0);
    assert_eq!(counter.chars, 0);
    assert_eq!(counter.max_line_length, 0);
    assert!(counter.filename.is_none());
}
