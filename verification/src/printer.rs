//! Writing records out as a report: plain, for people, or as JSON.
use vstd::prelude::*;
use vstd::string::StringExecFns;
use crate::counter::{label_of, sum_of, total_counts, views, Counts, WcCounter};
use crate::error::{WcError, WcResult};
use crate::json::{
    entries_of, json_entries, json_insert, json_object, json_pretty, json_pretty_text,
    no_entries, JsonItem, JsonItemView,
};
use crate::parser::{Cli, CountMode, OutputFormat};

verus! {

/// The character of the decimal digit `d`.
pub open spec fn digit_char(d: nat) -> char {
    if d == 0 {
        '0'
    } else if d == 1 {
        '1'
    } else if d == 2 {
        '2'
    } else if d == 3 {
        '3'
    } else if d == 4 {
        '4'
    } else if d == 5 {
        '5'
    } else if d == 6 {
        '6'
    } else if d == 7 {
        '7'
    } else if d == 8 {
        '8'
    } else {
        '9'
    }
}

/// `n` written in decimal, without sign or leading zeros.
pub open spec fn decimal(n: nat) -> Seq<char>
    decreases n,
{
    if n < 10 {
        seq![digit_char(n)]
    } else {
        decimal(n / 10).push(digit_char(n % 10))
    }
}

/// The digits `digits`, given from the lowest to the highest, written from the
/// highest to the lowest.
pub open spec fn written(digits: Seq<u8>) -> Seq<char> {
    Seq::new(digits.len(), |j: int| digit_char(digits[digits.len() - 1 - j] as nat))
}

/// `parts` written one after the other with `separator` between them.
pub open spec fn joined(parts: Seq<Seq<char>>, separator: Seq<char>) -> Seq<char>
    decreases parts.len(),
{
    if parts.len() == 0 {
        Seq::empty()
    } else if parts.len() == 1 {
        parts[0]
    } else {
        joined(parts.drop_last(), separator) + separator + parts.last()
    }
}

/// The text of each of `parts`.
pub open spec fn texts(parts: Seq<String>) -> Seq<Seq<char>> {
    parts.map_values(|part: String| part@)
}

/// The decimal digit `d` as a string.
fn digit_str(d: u8) -> (text: &'static str)
    requires
        d < 10,
    ensures
        text@ == seq![digit_char(d as nat)],
{
    proof {
        reveal_strlit("0");
        reveal_strlit("1");
        reveal_strlit("2");
        reveal_strlit("3");
        reveal_strlit("4");
        reveal_strlit("5");
        reveal_strlit("6");
        reveal_strlit("7");
        reveal_strlit("8");
        reveal_strlit("9");
    }
    let text = if d == 0 {
        "0"
    } else if d == 1 {
        "1"
    } else if d == 2 {
        "2"
    } else if d == 3 {
        "3"
    } else if d == 4 {
        "4"
    } else if d == 5 {
        "5"
    } else if d == 6 {
        "6"
    } else if d == 7 {
        "7"
    } else if d == 8 {
        "8"
    } else {
        "9"
    };
    text
}

/// `n` written in decimal.
pub fn decimal_string(n: usize) -> (text: String)
    ensures
        text@ == decimal(n as nat),
{
    let mut digits: Vec<u8> = Vec::new();
    let mut rest: usize = n;
    while rest >= 10
        invariant
            decimal(n as nat) == decimal(rest as nat) + written(digits@),
            forall|k: int| 0 <= k < digits@.len() ==> digits@[k] < 10,
        decreases rest,
    {
        let digit: u8 = (rest % 10) as u8;
        digits.push(digit);
        rest = rest / 10;
    }
    let mut text = String::from_str(digit_str(rest as u8));
    let mut left: usize = digits.len();
    while left > 0
        invariant
            left <= digits.len(),
            forall|k: int| 0 <= k < digits@.len() ==> digits@[k] < 10,
            text@ == decimal(rest as nat) + written(digits@).take(digits@.len() - left),
            rest < 10,
        decreases left,
    {
        left = left - 1;
        text.append(digit_str(digits[left]));
    }
    text
}

/// `parts` written one after the other with `separator` between them.
pub fn join_text(parts: &Vec<String>, separator: &str) -> (text: String)
    ensures
        text@ == joined(texts(parts@), separator@),
{
    let mut text = String::new();
    let mut i: usize = 0;
    while i < parts.len()
        invariant
            i <= parts.len(),
            text@ == joined(texts(parts@).take(i as int), separator@),
        decreases parts.len() - i,
    {
        proof {
            let all = texts(parts@);
            assert(all.take(i + 1).drop_last() =~= all.take(i as int));
        }
        if i > 0 {
            text.append(separator);
        }
        text.append(parts[i].as_str());
        i = i + 1;
    }
    assert(texts(parts@).take(i as int) =~= texts(parts@));
    text
}

/// The number that `counts` holds for `mode`.
pub open spec fn mode_count(mode: CountMode, counts: Counts) -> nat {
    match mode {
        CountMode::Lines => counts.lines,
        CountMode::Words => counts.words,
        CountMode::Bytes => counts.bytes,
        CountMode::Chars => counts.chars,
    }
}

/// The number that `counter` holds for `mode`.
pub fn count_for(mode: CountMode, counter: &WcCounter) -> (n: usize)
    ensures
        n == mode_count(mode, counter@),
{
    match mode {
        CountMode::Lines => counter.lines,
        CountMode::Words => counter.words,
        CountMode::Bytes => counter.bytes,
        CountMode::Chars => counter.chars,
    }
}

/// `head` followed by `tail`.
fn concat(head: &str, tail: &str) -> (text: String)
    ensures
        text@ == head@ + tail@,
{
    let mut text = String::from_str(head);
    text.append(tail);
    text
}

/// How the pieces of a report line are written.
pub trait CountFormatter {
    /// The piece for the number that `counts` holds for `mode`.
    spec fn count_text(&self, mode: CountMode, counts: Counts) -> Seq<char>;

    /// The piece for the longest line of `counts`.
    spec fn max_line_length_text(&self, counts: Counts) -> Seq<char>;

    /// The piece for the label `filename`.
    spec fn filename_text(&self, filename: Option<Seq<char>>) -> Seq<char>;

    /// The piece that marks the line of the grand total.
    spec fn total_label_text(&self) -> Seq<char>;

    fn format_count(&self, mode: &CountMode, counter: &WcCounter) -> (text: String)
        ensures
            text@ == self.count_text(*mode, counter@),
    ;

    fn format_max_line_length(&self, counter: &WcCounter) -> (text: String)
        ensures
            text@ == self.max_line_length_text(counter@),
    ;

    fn format_filename(&self, filename: &Option<String>) -> (text: String)
        ensures
            text@ == self.filename_text(label_of(*filename)),
    ;

    fn format_total_label(&self) -> (text: String)
        ensures
            text@ == self.total_label_text(),
    ;
}

/// Bare numbers and names, as `wc` writes them.
#[derive(Debug, Clone, Copy)]
pub struct PlainFormatter;

/// Numbers with their meaning beside them.
#[derive(Debug, Clone, Copy)]
pub struct HumanFormatter;

impl CountFormatter for PlainFormatter {
    open spec fn count_text(&self, mode: CountMode, counts: Counts) -> Seq<char> {
        decimal(mode_count(mode, counts))
    }

    open spec fn max_line_length_text(&self, counts: Counts) -> Seq<char> {
        decimal(counts.max_line_length)
    }

    open spec fn filename_text(&self, filename: Option<Seq<char>>) -> Seq<char> {
        match filename {
            Some(name) => name,
            None => Seq::empty(),
        }
    }

    open spec fn total_label_text(&self) -> Seq<char> {
        "total"@
    }

    fn format_count(&self, mode: &CountMode, counter: &WcCounter) -> (text: String) {
        decimal_string(count_for(*mode, counter))
    }

    fn format_max_line_length(&self, counter: &WcCounter) -> (text: String) {
        decimal_string(counter.max_line_length)
    }

    fn format_filename(&self, filename: &Option<String>) -> (text: String) {
        match filename {
            Some(name) => name.clone(),
            None => String::new(),
        }
    }

    fn format_total_label(&self) -> (text: String) {
        String::from_str("total")
    }
}

/// What the human-readable report calls the number for `mode`.
pub open spec fn mode_caption(mode: CountMode) -> Seq<char> {
    match mode {
        CountMode::Lines => "lines: "@,
        CountMode::Words => "words: "@,
        CountMode::Bytes => "bytes: "@,
        CountMode::Chars => "chars: "@,
    }
}

impl CountFormatter for HumanFormatter {
    open spec fn count_text(&self, mode: CountMode, counts: Counts) -> Seq<char> {
        mode_caption(mode) + decimal(mode_count(mode, counts))
    }

    open spec fn max_line_length_text(&self, counts: Counts) -> Seq<char> {
        decimal(counts.max_line_length) + " max line length"@
    }

    open spec fn filename_text(&self, filename: Option<Seq<char>>) -> Seq<char> {
        match filename {
            Some(name) => "in "@ + name,
            None => Seq::empty(),
        }
    }

    open spec fn total_label_text(&self) -> Seq<char> {
        "total"@
    }

    fn format_count(&self, mode: &CountMode, counter: &WcCounter) -> (text: String) {
        let number = decimal_string(count_for(*mode, counter));
        match mode {
            CountMode::Lines => concat("lines: ", number.as_str()),
            CountMode::Words => concat("words: ", number.as_str()),
            CountMode::Bytes => concat("bytes: ", number.as_str()),
            CountMode::Chars => concat("chars: ", number.as_str()),
        }
    }

    fn format_max_line_length(&self, counter: &WcCounter) -> (text: String) {
        let mut text = decimal_string(counter.max_line_length);
        text.append(" max line length");
        text
    }

    fn format_filename(&self, filename: &Option<String>) -> (text: String) {
        match filename {
            Some(name) => concat("in ", name.as_str()),
            None => String::new(),
        }
    }

    fn format_total_label(&self) -> (text: String) {
        String::from_str("total")
    }
}

/// The pieces for the numbers of `counts`, one for each of `modes`.
pub open spec fn count_texts<F: CountFormatter>(
    formatter: F,
    modes: Seq<CountMode>,
    counts: Counts,
) -> Seq<Seq<char>> {
    modes.map_values(|mode: CountMode| formatter.count_text(mode, counts))
}

/// The pieces of every line: the numbers asked for, then the longest line if
/// it is asked for.
pub open spec fn number_texts<F: CountFormatter>(formatter: F, cli: Cli, counts: Counts) -> Seq<
    Seq<char>,
> {
    count_texts(formatter, cli.count_modes(), counts) + if cli.max_line_length {
        seq![formatter.max_line_length_text(counts)]
    } else {
        Seq::empty()
    }
}

/// The line of one source: its numbers and, if it has one, its label, with a
/// blank between the pieces and a line feed at the end.
pub open spec fn record_line<F: CountFormatter>(formatter: F, cli: Cli, counts: Counts) -> Seq<
    char,
> {
    joined(
        number_texts(formatter, cli, counts) + if counts.label is Some {
            seq![formatter.filename_text(counts.label)]
        } else {
            Seq::empty()
        },
        " "@,
    ) + "\n"@
}

/// The line of the grand total: its numbers and the mark of the total.
pub open spec fn total_line<F: CountFormatter>(formatter: F, cli: Cli, total: Counts) -> Seq<
    char,
> {
    joined(number_texts(formatter, cli, total) + seq![formatter.total_label_text()], " "@) + "\n"@
}

/// The lines of `records`, one after the other.
pub open spec fn record_lines<F: CountFormatter>(
    formatter: F,
    cli: Cli,
    records: Seq<Counts>,
) -> Seq<char>
    decreases records.len(),
{
    if records.len() == 0 {
        Seq::empty()
    } else {
        record_lines(formatter, cli, records.drop_last()) + record_line(
            formatter,
            cli,
            records.last(),
        )
    }
}

/// The whole report: a line for each source and, where there is more than one
/// source, a line for the grand total.
pub open spec fn report_text<F: CountFormatter>(
    formatter: F,
    cli: Cli,
    records: Seq<Counts>,
) -> Seq<char> {
    record_lines(formatter, cli, records) + if records.len() > 1 {
        total_line(formatter, cli, sum_of(records))
    } else {
        Seq::empty()
    }
}

/// The pieces of a line that every line has.
fn number_parts<F: CountFormatter>(
    formatter: &F,
    cli: &Cli,
    modes: &Vec<CountMode>,
    counter: &WcCounter,
) -> (parts: Vec<String>)
    requires
        modes@ == cli.count_modes(),
    ensures
        texts(parts@) == number_texts(*formatter, *cli, counter@),
{
    let mut parts: Vec<String> = Vec::new();
    let mut i: usize = 0;
    while i < modes.len()
        invariant
            i <= modes.len(),
            parts@.len() == i,
            texts(parts@) == count_texts(*formatter, modes@.take(i as int), counter@),
        decreases modes.len() - i,
    {
        let part = formatter.format_count(&modes[i], counter);
        proof {
            let before = texts(parts@);
            let after = texts(parts@.push(part));
            let wanted = count_texts(*formatter, modes@.take(i + 1), counter@);
            assert forall|j: int| 0 <= j < after.len() implies after[j] == wanted[j] by {
                if j < i {
                    assert(after[j] == before[j]);
                }
            }
        }
        parts.push(part);
        i = i + 1;
    }
    if cli.max_line_length {
        let part = formatter.format_max_line_length(counter);
        proof {
            assert(texts(parts@.push(part)) =~= texts(parts@) + seq![part@]);
        }
        parts.push(part);
    }
    parts
}

/// Writes `parts` as one line onto the end of `output`.
fn push_line(output: &mut String, parts: &Vec<String>)
    ensures
        final(output)@ == old(output)@ + joined(texts(parts@), " "@) + "\n"@,
{
    let line = join_text(parts, " ");
    output.append(line.as_str());
    output.append("\n");
}

/// Writes the report on `results` in the way of `formatter`: one line for each
/// record and, where there is more than one, a line for their grand total.
pub fn build_output<F: CountFormatter>(results: &[WcCounter], cli: &Cli, formatter: F) -> (output:
    String)
    requires
        results@.len() > 1 ==> sum_of(views(results@)).fits(),
    ensures
        output@ == report_text(formatter, *cli, views(results@)),
{
    let modes = cli.get_count_modes();
    let mut output = String::new();
    let mut i: usize = 0;
    while i < results.len()
        invariant
            i <= results.len(),
            modes@ == cli.count_modes(),
            output@ == record_lines(formatter, *cli, views(results@).take(i as int)),
        decreases results.len() - i,
    {
        let result = &results[i];
        let mut parts = number_parts(&formatter, cli, &modes, result);
        if result.filename.is_some() {
            let part = formatter.format_filename(&result.filename);
            proof {
                assert(texts(parts@.push(part)) =~= texts(parts@) + seq![part@]);
            }
            parts.push(part);
        }
        proof {
            let all = views(results@);
            assert(all.take(i + 1).drop_last() =~= all.take(i as int));
        }
        push_line(&mut output, &parts);
        i = i + 1;
    }
    assert(views(results@).take(i as int) =~= views(results@));
    if results.len() > 1 {
        let total = total_counts(results);
        let mut parts = number_parts(&formatter, cli, &modes, &total);
        let part = formatter.format_total_label();
        proof {
            assert(texts(parts@.push(part)) =~= texts(parts@) + seq![part@]);
        }
        parts.push(part);
        push_line(&mut output, &parts);
    }
    output
}

/// The key of the number for `mode` in a JSON object.
pub open spec fn mode_key(mode: CountMode) -> Seq<char> {
    match mode {
        CountMode::Lines => "lines"@,
        CountMode::Words => "words"@,
        CountMode::Bytes => "bytes"@,
        CountMode::Chars => "chars"@,
    }
}

/// `object` with the numbers of `counts` for each of `modes` put in.
pub open spec fn with_counts(
    object: Map<Seq<char>, JsonItemView>,
    modes: Seq<CountMode>,
    counts: Counts,
) -> Map<Seq<char>, JsonItemView>
    decreases modes.len(),
{
    if modes.len() == 0 {
        object
    } else {
        with_counts(object, modes.drop_last(), counts).insert(
            mode_key(modes.last()),
            JsonItemView::Number(mode_count(modes.last(), counts)),
        )
    }
}

/// The entries that every object of the report has: the numbers asked for and,
/// if it is asked for, the longest line.
pub open spec fn number_entries(cli: Cli, counts: Counts) -> Map<Seq<char>, JsonItemView> {
    let counted = with_counts(no_entries(), cli.count_modes(), counts);
    if cli.max_line_length {
        counted.insert("max_line_length"@, JsonItemView::Number(counts.max_line_length))
    } else {
        counted
    }
}

/// The object of one source: its numbers and, if it has one, its label.
pub open spec fn record_object(cli: Cli, counts: Counts) -> Map<Seq<char>, JsonItemView> {
    match counts.label {
        Some(name) => number_entries(cli, counts).insert("filename"@, JsonItemView::Text(name)),
        None => number_entries(cli, counts),
    }
}

/// The object of the grand total: its numbers and the mark of the total.
pub open spec fn total_object(cli: Cli, total: Counts) -> Map<Seq<char>, JsonItemView> {
    number_entries(cli, total).insert("type"@, JsonItemView::Text("total"@))
}

/// The objects of the whole report: one for each source and, where there is
/// more than one source, one for the grand total.
pub open spec fn json_report(cli: Cli, records: Seq<Counts>) -> Seq<Map<Seq<char>, JsonItemView>> {
    records.map_values(|counts: Counts| record_object(cli, counts)) + if records.len() > 1 {
        seq![total_object(cli, sum_of(records))]
    } else {
        Seq::empty()
    }
}

/// The key of the number for `mode` in a JSON object.
fn key_for(mode: CountMode) -> (key: &'static str)
    ensures
        key@ == mode_key(mode),
{
    match mode {
        CountMode::Lines => "lines",
        CountMode::Words => "words",
        CountMode::Bytes => "bytes",
        CountMode::Chars => "chars",
    }
}

/// A JSON object with the entries that every object of the report has.
fn number_object(cli: &Cli, modes: &Vec<CountMode>, counter: &WcCounter) -> (object:
    serde_json::Map<String, serde_json::Value>)
    requires
        modes@ == cli.count_modes(),
    ensures
        json_entries(object) == number_entries(*cli, counter@),
{
    let mut object = json_object();
    let mut i: usize = 0;
    while i < modes.len()
        invariant
            i <= modes.len(),
            json_entries(object) == with_counts(no_entries(), modes@.take(i as int), counter@),
        decreases modes.len() - i,
    {
        let mode = modes[i];
        proof {
            assert(modes@.take(i + 1).drop_last() =~= modes@.take(i as int));
        }
        json_insert(&mut object, key_for(mode), JsonItem::Number(count_for(mode, counter)));
        i = i + 1;
    }
    assert(modes@.take(i as int) =~= modes@);
    if cli.max_line_length {
        json_insert(&mut object, "max_line_length", JsonItem::Number(counter.max_line_length));
    }
    object
}

/// What the report as JSON comes to, given what writing it out came to: the
/// text if it was written, else the failure as a [`WcError::Json`].
pub fn json_outcome(rendered: Result<String, serde_json::Error>) -> (result: WcResult<String>)
    ensures
        match rendered {
            Ok(text) => result == Ok::<String, WcError>(text),
            Err(cause) => result == Err::<String, WcError>(WcError::Json(cause)),
        },
{
    match rendered {
        Ok(text) => Ok(text),
        Err(cause) => Err(WcError::Json(cause)),
    }
}

/// Writes the report on `results` as pretty-printed JSON: a list with one
/// object for each record and, where there is more than one, an object for
/// their grand total.
///
/// Which objects are written is settled here; their text is that of the JSON
/// writer, which always writes them: the result is always `Ok`.
pub fn format_json(results: &[WcCounter], cli: &Cli) -> (result: WcResult<String>)
    requires
        results@.len() > 1 ==> sum_of(views(results@)).fits(),
    ensures
        result matches Ok(text) && text@ == json_pretty_text(json_report(*cli, views(results@))),
{
    let modes = cli.get_count_modes();
    let mut objects: Vec<serde_json::Map<String, serde_json::Value>> = Vec::new();
    let mut i: usize = 0;
    while i < results.len()
        invariant
            i <= results.len(),
            modes@ == cli.count_modes(),
            objects@.len() == i,
            entries_of(objects@) == views(results@).take(i as int).map_values(
                |counts: Counts| record_object(*cli, counts),
            ),
        decreases results.len() - i,
    {
        let result = &results[i];
        let mut object = number_object(cli, &modes, result);
        match &result.filename {
            Some(name) => {
                json_insert(&mut object, "filename", JsonItem::Text(name.clone()));
            },
            None => {},
        }
        proof {
            let before = entries_of(objects@);
            let after = entries_of(objects@.push(object));
            let wanted = views(results@).take(i + 1).map_values(
                |counts: Counts| record_object(*cli, counts),
            );
            assert forall|j: int| 0 <= j < after.len() implies after[j] == wanted[j] by {
                if j < i {
                    assert(after[j] == before[j]);
                }
            }
        }
        objects.push(object);
        i = i + 1;
    }
    assert(views(results@).take(i as int) =~= views(results@));
    if results.len() > 1 {
        let total = total_counts(results);
        let mut object = number_object(cli, &modes, &total);
        json_insert(&mut object, "type", JsonItem::Text(String::from_str("total")));
        proof {
            assert(entries_of(objects@.push(object)) =~= json_report(*cli, views(results@)));
        }
        objects.push(object);
    }
    json_outcome(json_pretty(&objects))
}

/// Whether only the longest line is asked for: it is, and none of lines,
/// words, bytes and characters is.
pub open spec fn only_max_line_length(cli: Cli) -> bool {
    cli.max_line_length && !cli.lines && !cli.words && !cli.bytes && !cli.chars
}

/// The piece of one source where only the longest line is asked for: its
/// length, a blank, the label if there is one, and a line feed.
pub open spec fn max_line_length_piece(counts: Counts) -> Seq<char> {
    decimal(counts.max_line_length) + " "@ + (match counts.label {
        Some(name) => name,
        None => Seq::empty(),
    }) + "\n"@
}

/// The report where only the longest line is asked for: the pieces of the
/// sources with a line feed between them.
pub open spec fn max_line_length_report(records: Seq<Counts>) -> Seq<char> {
    joined(records.map_values(|counts: Counts| max_line_length_piece(counts)), "\n"@)
}

/// The report on `records` that `cli` asks for: where only the longest line
/// is asked for, that and the label of each source, whatever the format; else
/// the report in the format that `cli` names.
pub open spec fn results_text(cli: Cli, records: Seq<Counts>) -> Seq<char> {
    if only_max_line_length(cli) {
        max_line_length_report(records)
    } else {
        match cli.format {
            OutputFormat::Plain => report_text(PlainFormatter, cli, records),
            OutputFormat::Human => report_text(HumanFormatter, cli, records),
            OutputFormat::Json => json_pretty_text(json_report(cli, records)),
        }
    }
}

/// Writes the report on `results` that `cli` asks for.
///
/// Where only the longest line is asked for, the report gives that and the
/// label of each source, whatever the format. Else it is written in the format
/// that `cli` names. A report is written in every case: the result is always
/// `Ok`.
pub fn format_results(results: &[WcCounter], cli: &Cli) -> (result: WcResult<String>)
    requires
        results@.len() > 1 ==> sum_of(views(results@)).fits(),
    ensures
        result matches Ok(text) && text@ == results_text(*cli, views(results@)),
{
    if cli.max_line_length && !cli.lines && !cli.words && !cli.bytes && !cli.chars {
        let mut pieces: Vec<String> = Vec::new();
        let mut i: usize = 0;
        while i < results.len()
            invariant
                i <= results.len(),
                pieces@.len() == i,
                texts(pieces@) == views(results@).take(i as int).map_values(
                    |counts: Counts| max_line_length_piece(counts),
                ),
            decreases results.len() - i,
        {
            let result = &results[i];
            let mut piece = decimal_string(result.max_line_length);
            piece.append(" ");
            match &result.filename {
                Some(name) => {
                    piece.append(name.as_str());
                },
                None => {},
            }
            piece.append("\n");
            proof {
                let before = texts(pieces@);
                let after = texts(pieces@.push(piece));
                let wanted = views(results@).take(i + 1).map_values(
                    |counts: Counts| max_line_length_piece(counts),
                );
                assert forall|j: int| 0 <= j < after.len() implies after[j] == wanted[j] by {
                    if j < i {
                        assert(after[j] == before[j]);
                    }
                }
            }
            pieces.push(piece);
            i = i + 1;
        }
        assert(views(results@).take(i as int) =~= views(results@));
        return Ok(join_text(&pieces, "\n"));
    }
    match cli.format {
        OutputFormat::Plain => Ok(build_output(results, cli, PlainFormatter)),
        OutputFormat::Human => Ok(build_output(results, cli, HumanFormatter)),
        OutputFormat::Json => format_json(results, cli),
    }
}

} // verus!
