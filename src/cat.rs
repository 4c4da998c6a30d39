//! Line numbering.
use crate::text::{justified, push_char, push_justified};
use vstd::string::StringExecFns;
use vstd::prelude::*;

verus! {

/// Width of the line number in front of a numbered line.
pub const NUMBER_WIDTH: usize = 6;

/// How lines are numbered.
#[derive(Debug, Clone, Copy, PartialEq, Eq, Structural)]
pub enum NumberMode {
    /// Lines pass through unchanged.
    Plain,
    /// Every line is numbered.
    NumberAll,
    /// Only non-empty lines are numbered; empty lines pass through.
    NumberNonBlank,
}

/// `line` after the number `n`, right-justified, and a tab.
pub open spec fn numbered(n: nat, line: Seq<char>) -> Seq<char> {
    justified(n, NUMBER_WIDTH as nat) + seq!['\t'] + line
}

/// The output for `line` (without its terminator) when the next number is
/// `n`, and the next number after it.
pub open spec fn number_step(mode: NumberMode, n: nat, line: Seq<char>) -> (Seq<char>, nat) {
    match mode {
        NumberMode::Plain => (line, n),
        NumberMode::NumberAll => (numbered(n, line), n + 1),
        NumberMode::NumberNonBlank => if line.len() == 0 {
            (line, n)
        } else {
            (numbered(n, line), n + 1)
        },
    }
}

/// The output for `lines` when the next number is `n`.
pub open spec fn number_from(mode: NumberMode, n: nat, lines: Seq<Seq<char>>) -> Seq<Seq<char>>
    decreases lines.len(),
{
    if lines.len() == 0 {
        Seq::empty()
    } else {
        let (out, next) = number_step(mode, n, lines[0]);
        seq![out] + number_from(mode, next, lines.drop_first())
    }
}

/// The number of non-empty lines in `lines`.
pub open spec fn nonblank_count(lines: Seq<Seq<char>>) -> nat
    decreases lines.len(),
{
    if lines.len() == 0 {
        0
    } else {
        (if lines[0].len() > 0 {
            1nat
        } else {
            0nat
        }) + nonblank_count(lines.drop_first())
    }
}

proof fn lemma_number_all_from(n: nat, lines: Seq<Seq<char>>)
    ensures
        number_from(NumberMode::NumberAll, n, lines).len() == lines.len(),
        forall|i: int|
            0 <= i < lines.len() ==> #[trigger] number_from(NumberMode::NumberAll, n, lines)[i]
                == numbered(n + i as nat, lines[i]),
    decreases lines.len(),
{
    if lines.len() > 0 {
        let rest = lines.drop_first();
        lemma_number_all_from(n + 1, rest);
        let out = number_from(NumberMode::NumberAll, n, lines);
        assert forall|i: int| 0 <= i < lines.len() implies #[trigger] out[i] == numbered(
            n + i as nat,
            lines[i],
        ) by {
            if i > 0 {
                assert(out[i] == number_from(NumberMode::NumberAll, n + 1, rest)[i - 1]);
                assert(rest[i - 1] == lines[i]);
                assert((n + 1) + (i - 1) as nat == n + i as nat);
            }
        }
    }
}

/// Numbering every line gives one output line per input line, the i-th
/// numbered i + 1.
pub proof fn lemma_number_all(lines: Seq<Seq<char>>)
    ensures
        number_from(NumberMode::NumberAll, 1, lines).len() == lines.len(),
        forall|i: int|
            0 <= i < lines.len() ==> #[trigger] number_from(NumberMode::NumberAll, 1, lines)[i]
                == numbered((i + 1) as nat, lines[i]),
{
    lemma_number_all_from(1, lines);
}

proof fn lemma_number_nonblank_from(n: nat, lines: Seq<Seq<char>>)
    ensures
        number_from(NumberMode::NumberNonBlank, n, lines).len() == lines.len(),
        forall|i: int|
            0 <= i < lines.len() ==> #[trigger] number_from(NumberMode::NumberNonBlank, n, lines)[i]
                == if lines[i].len() == 0 {
                lines[i]
            } else {
                numbered(n + nonblank_count(lines.subrange(0, i)), lines[i])
            },
    decreases lines.len(),
{
    if lines.len() > 0 {
        let rest = lines.drop_first();
        let first: nat = if lines[0].len() > 0 {
            1
        } else {
            0
        };
        lemma_number_nonblank_from(n + first, rest);
        let out = number_from(NumberMode::NumberNonBlank, n, lines);
        assert(lines.subrange(0, 0) =~= Seq::<Seq<char>>::empty());
        assert forall|i: int| 0 <= i < lines.len() implies #[trigger] out[i] == if lines[i].len()
            == 0 {
            lines[i]
        } else {
            numbered(n + nonblank_count(lines.subrange(0, i)), lines[i])
        } by {
            if i > 0 {
                assert(out[i] == number_from(NumberMode::NumberNonBlank, n + first, rest)[i - 1]);
                assert(rest[i - 1] == lines[i]);
                assert(lines.subrange(0, i).drop_first() =~= rest.subrange(0, i - 1));
                assert(nonblank_count(lines.subrange(0, i)) == first + nonblank_count(
                    rest.subrange(0, i - 1),
                ));
            }
        }
    }
}

/// Numbering non-empty lines gives one output line per input line: an empty
/// line passes through, a non-empty one carries one more than the number of
/// non-empty lines before it.
pub proof fn lemma_number_nonblank(lines: Seq<Seq<char>>)
    ensures
        number_from(NumberMode::NumberNonBlank, 1, lines).len() == lines.len(),
        forall|i: int|
            0 <= i < lines.len() ==> #[trigger] number_from(NumberMode::NumberNonBlank, 1, lines)[i]
                == if lines[i].len() == 0 {
                lines[i]
            } else {
                numbered(1 + nonblank_count(lines.subrange(0, i)), lines[i])
            },
{
    lemma_number_nonblank_from(1, lines);
}

/// A configuration that cannot be run.
#[derive(Debug, Clone, Copy, PartialEq, Eq, Structural)]
pub enum ConfigError {
    /// Numbering of all lines and of non-empty lines were both requested.
    ConflictingModes,
}

/// The mode that the two numbering requests select.
pub open spec fn mode_of(number_lines: bool, number_nonblank_lines: bool) -> NumberMode {
    if number_lines {
        NumberMode::NumberAll
    } else if number_nonblank_lines {
        NumberMode::NumberNonBlank
    } else {
        NumberMode::Plain
    }
}

/// The sources to print and how to number their lines.
#[derive(Debug)]
pub struct Config {
    files: Vec<String>,
    number_lines: bool,
    number_nonblank_lines: bool,
}

impl Config {
    pub closed spec fn spec_files(&self) -> Seq<Seq<char>> {
        self.files@.map_values(|f: String| f@)
    }

    pub closed spec fn spec_mode(&self) -> NumberMode {
        mode_of(self.number_lines, self.number_nonblank_lines)
    }

    /// Builds a configuration; the two numbering requests exclude each other.
    pub fn new(files: Vec<String>, number_lines: bool, number_nonblank_lines: bool) -> (r: Result<
        Config,
        ConfigError,
    >)
        ensures
            r is Err <==> number_lines && number_nonblank_lines,
            r is Err ==> r->Err_0 == ConfigError::ConflictingModes,
            r is Ok ==> r->Ok_0.spec_files() == files@.map_values(|f: String| f@) && r->Ok_0.spec_mode()
                == mode_of(number_lines, number_nonblank_lines),
    {
        if number_lines && number_nonblank_lines {
            Err(ConfigError::ConflictingModes)
        } else {
            Ok(Config { files, number_lines, number_nonblank_lines })
        }
    }

    /// The sources, in order; "-" stands for standard input.
    pub fn files(&self) -> (r: &Vec<String>)
        ensures
            r@.map_values(|f: String| f@) == self.spec_files(),
    {
        &self.files
    }

    /// The numbering mode, resolved from the two requests.
    pub fn mode(&self) -> (r: NumberMode)
        ensures
            r == self.spec_mode(),
    {
        if self.number_lines {
            NumberMode::NumberAll
        } else if self.number_nonblank_lines {
            NumberMode::NumberNonBlank
        } else {
            NumberMode::Plain
        }
    }
}

/// Numbers lines one at a time. One numberer serves all the sources of a
/// run, so numbering continues across source boundaries.
pub struct Numberer {
    mode: NumberMode,
    next: u64,
}

impl Numberer {
    pub closed spec fn spec_mode(&self) -> NumberMode {
        self.mode
    }

    /// The number the next numbered line will carry.
    pub closed spec fn spec_next(&self) -> nat {
        self.next as nat
    }

    /// A numberer whose first number is 1.
    pub fn new(mode: NumberMode) -> (r: Numberer)
        ensures
            r.spec_mode() == mode,
            r.spec_next() == 1,
    {
        Numberer { mode, next: 1 }
    }

    /// The number the next numbered line will carry.
    pub fn next_number(&self) -> (r: u64)
        ensures
            r == self.spec_next(),
    {
        self.next
    }

    /// The output for `line`, given without its terminator.
    pub fn number(&mut self, line: &str) -> (r: String)
        requires
            old(self).spec_next() < u64::MAX,
        ensures
            final(self).spec_mode() == old(self).spec_mode(),
            (r@, final(self).spec_next()) == number_step(
                old(self).spec_mode(),
                old(self).spec_next(),
                line@,
            ),
    {
        let mut out = String::new();
        let show = match self.mode {
            NumberMode::Plain => false,
            NumberMode::NumberAll => true,
            NumberMode::NumberNonBlank => !line.is_empty(),
        };
        if show {
            push_justified(&mut out, self.next, NUMBER_WIDTH);
            push_char(&mut out, '\t');
            self.next = self.next + 1;
        }
        out.append(line);
        assert(out@ =~= number_step(old(self).spec_mode(), old(self).spec_next(), line@).0);
        out
    }
}

} // verus!
