//! The options of a command line, and which statistics they select.
use vstd::prelude::*;
use vstd::string::StringExecFns;

verus! {

/// One kind of statistic that can be asked for.
#[derive(Debug, Clone, Copy, PartialEq, Eq, Structural)]
pub enum CountMode {
    Lines,
    Words,
    Bytes,
    Chars,
}

/// How a report is written.
#[derive(Debug, Clone, Copy, PartialEq, Eq, Structural)]
pub enum OutputFormat {
    Plain,
    Human,
    Json,
}

/// The options of one invocation.
#[derive(Debug, Clone)]
pub struct Cli {
    /// Report the number of line terminators.
    pub lines: bool,
    /// Report the number of words.
    pub words: bool,
    /// Report the number of bytes.
    pub bytes: bool,
    /// Report the number of characters.
    pub chars: bool,
    /// Report the length of the longest line.
    pub max_line_length: bool,
    /// Report lines, words and bytes, whatever else is set.
    pub all: bool,
    /// How the report is written.
    pub format: OutputFormat,
    /// The sources to count, in order; `-` stands for standard input.
    pub files: Vec<String>,
}

/// The statistics reported when none is asked for, and under `all`.
pub open spec fn default_modes() -> Seq<CountMode> {
    seq![CountMode::Lines, CountMode::Words, CountMode::Bytes]
}

impl Cli {
    /// The statistics whose own flag is set, in the order lines, words, bytes,
    /// characters.
    pub open spec fn flagged_modes(self) -> Seq<CountMode> {
        (if self.lines {
            seq![CountMode::Lines]
        } else {
            seq![]
        }) + (if self.words {
            seq![CountMode::Words]
        } else {
            seq![]
        }) + (if self.bytes {
            seq![CountMode::Bytes]
        } else {
            seq![]
        }) + (if self.chars {
            seq![CountMode::Chars]
        } else {
            seq![]
        })
    }

    /// The statistics to report: the default three under `all` or when no
    /// flag is set, else those flagged.
    pub open spec fn count_modes(self) -> Seq<CountMode> {
        if self.all || !(self.lines || self.words || self.bytes || self.chars) {
            default_modes()
        } else {
            self.flagged_modes()
        }
    }

    /// Standard input is the only source: no source is named, or the one that
    /// is named is `-`.
    pub open spec fn only_stdin(self) -> bool {
        self.files@.len() == 0 || (self.files@.len() == 1 && is_stdin_name(self.files@[0]@))
    }

    /// Whether standard input is the only source.
    pub fn reads_only_stdin(&self) -> (stdin: bool)
        ensures
            stdin == self.only_stdin(),
    {
        self.files.len() == 0 || (self.files.len() == 1 && is_stdin(self.files[0].as_str()))
    }

    /// The statistics to report, in the order in which they are written.
    pub fn get_count_modes(&self) -> (modes: Vec<CountMode>)
        ensures
            modes@ == self.count_modes(),
    {
        if self.all {
            return vec![CountMode::Lines, CountMode::Words, CountMode::Bytes];
        }
        let mut modes: Vec<CountMode> = Vec::new();
        if self.lines {
            modes.push(CountMode::Lines);
        }
        if self.words {
            modes.push(CountMode::Words);
        }
        if self.bytes {
            modes.push(CountMode::Bytes);
        }
        if self.chars {
            modes.push(CountMode::Chars);
        }
        if modes.len() == 0 {
            vec![CountMode::Lines, CountMode::Words, CountMode::Bytes]
        } else {
            modes
        }
    }
}

impl Default for Cli {
    /// The options of a command line without arguments: no flag is set, the
    /// report is plain, and the one source is standard input.
    fn default() -> (cli: Cli)
        ensures
            !cli.lines && !cli.words && !cli.bytes && !cli.chars,
            !cli.max_line_length && !cli.all,
            cli.format == OutputFormat::Plain,
            cli.files@.len() == 1 && is_stdin_name(cli.files@[0]@),
    {
        Cli {
            lines: false,
            words: false,
            bytes: false,
            chars: false,
            max_line_length: false,
            all: false,
            format: OutputFormat::Plain,
            files: vec![String::from_str("-")],
        }
    }
}

/// `name` is `-`, which stands for standard input.
pub open spec fn is_stdin_name(name: Seq<char>) -> bool {
    name == "-"@
}

/// Whether `name` stands for standard input.
pub fn is_stdin(name: &str) -> (stdin: bool)
    ensures
        stdin == is_stdin_name(name@),
{
    String::from_str(name) == String::from_str("-")
}

/// The label of the source named `name`: none for standard input, which is
/// reported without a name, else the name.
pub open spec fn label_for(name: Seq<char>) -> Option<Seq<char>> {
    if is_stdin_name(name) {
        None
    } else {
        Some(name)
    }
}

/// The label under which the source named `name` is reported.
pub fn source_label(name: &str) -> (label: Option<String>)
    ensures
        match label {
            Some(text) => label_for(name@) == Some(text@),
            None => label_for(name@) is None,
        },
{
    if is_stdin(name) {
        None
    } else {
        Some(String::from_str(name))
    }
}

/// Whether `wanted` occurs in `modes`.
pub fn has_mode(modes: &[CountMode], wanted: CountMode) -> (found: bool)
    ensures
        found == modes@.contains(wanted),
{
    let mut i: usize = 0;
    while i < modes.len()
        invariant
            i <= modes.len(),
            forall|k: int| 0 <= k < i ==> modes@[k] != wanted,
        decreases modes.len() - i,
    {
        if modes[i] == wanted {
            return true;
        }
        i += 1;
    }
    false
}

} // verus!
