//! Counting of lines, words, bytes and characters, and the rows that report them.
use crate::text::{justified, push_char, push_justified};
use vstd::string::StringExecFns;
use vstd::prelude::*;
use vstd::std_specs::iter::IteratorSpec;
use vstd::string::StrSliceExecFns;
use vstd::utf8::encode_utf8;

verus! {

broadcast use vstd::string::group_string_axioms;

/// Width of each numeric column of a row.
pub const FIELD_WIDTH: usize = 8;

/// The four counts of one source.
#[derive(Debug, PartialEq, Eq, Structural)]
pub struct FileInfo {
    pub num_lines: usize,
    pub num_words: usize,
    pub num_bytes: usize,
    pub num_chars: usize,
}

/// Whether `c` has the Unicode `White_Space` property.
pub open spec fn is_white(c: char) -> bool {
    let u = c as u32;
    ||| 0x9 <= u <= 0xD
    ||| u == 0x20
    ||| u == 0x85
    ||| u == 0xA0
    ||| u == 0x1680
    ||| 0x2000 <= u <= 0x200A
    ||| u == 0x2028
    ||| u == 0x2029
    ||| u == 0x202F
    ||| u == 0x205F
    ||| u == 0x3000
}

/// Position `i` of `s` holds the first character of a word.
pub open spec fn starts_word(s: Seq<char>, i: int) -> bool {
    !is_white(s[i]) && (i == 0 || is_white(s[i - 1]))
}

/// The number of maximal runs of non-whitespace characters in `s`.
pub open spec fn word_count(s: Seq<char>) -> nat
    decreases s.len(),
{
    if s.len() == 0 {
        0
    } else {
        word_count(s.drop_last()) + if starts_word(s, s.len() - 1) {
            1nat
        } else {
            0nat
        }
    }
}

/// The number of line feeds in `s`.
pub open spec fn newline_count(s: Seq<char>) -> nat
    decreases s.len(),
{
    if s.len() == 0 {
        0
    } else {
        newline_count(s.drop_last()) + if s.last() == '\n' {
            1nat
        } else {
            0nat
        }
    }
}

/// The number of line records in `s`: one per line feed, plus a last record
/// that has no line feed.
pub open spec fn line_count(s: Seq<char>) -> nat {
    newline_count(s) + if s.len() > 0 && s.last() != '\n' {
        1nat
    } else {
        0nat
    }
}

/// Decides whether `c` has the Unicode `White_Space` property.
pub fn is_white_char(c: char) -> (r: bool)
    ensures
        r == is_white(c),
{
    let u = c as u32;
    (0x9 <= u && u <= 0xD) || u == 0x20 || u == 0x85 || u == 0xA0 || u == 0x1680 || (0x2000 <= u
        && u <= 0x200A) || u == 0x2028 || u == 0x2029 || u == 0x202F || u == 0x205F || u == 0x3000
}

/// Counts the lines, words, bytes (of the UTF-8 encoding) and characters of `text`.
pub fn count(text: &str) -> (r: FileInfo)
    ensures
        r.num_lines == line_count(text@),
        r.num_words == word_count(text@),
        r.num_bytes == encode_utf8(text@).len(),
        r.num_chars == text@.len(),
{
    let ghost s = text@;
    let num_bytes = text.as_bytes().len();
    let num_chars = text.unicode_len();
    let mut it = text.chars();
    let mut i: usize = 0;
    let mut num_words: usize = 0;
    let mut num_newlines: usize = 0;
    let mut last_white = true;
    let mut last_newline = false;
    loop
        invariant
            num_chars == s.len(),
            it.remaining() == s.subrange(i as int, s.len() as int),
            i <= s.len(),
            num_words == word_count(s.subrange(0, i as int)),
            num_words <= i,
            num_newlines == newline_count(s.subrange(0, i as int)),
            num_newlines + (if i > 0 && !last_newline {
                1int
            } else {
                0int
            }) <= i,
            last_white == (i == 0 || is_white(s[i - 1])),
            last_newline == (i > 0 && s[i - 1] == '\n'),
        ensures
            i == s.len(),
        decreases s.len() - i,
    {
        match it.next() {
            None => {
                assert(s.subrange(i as int, s.len() as int).len() == 0);
                break;
            },
            Some(c) => {
                let ghost prefix = s.subrange(0, i + 1);
                assert(prefix.drop_last() =~= s.subrange(0, i as int));
                assert(c == s[i as int]);
                let white = is_white_char(c);
                if !white && last_white {
                    num_words = num_words + 1;
                }
                if c == '\n' {
                    num_newlines = num_newlines + 1;
                }
                last_white = white;
                last_newline = c == '\n';
                i = i + 1;
            },
        }
    }
    assert(s.subrange(0, i as int) =~= s);
    let num_lines = if i > 0 && !last_newline {
        num_newlines + 1
    } else {
        num_newlines
    };
    FileInfo { num_lines, num_words, num_bytes, num_chars }
}

/// `value` right-justified in a column when `show`, else nothing.
pub open spec fn field_text(value: nat, show: bool) -> Seq<char> {
    if show {
        justified(value, FIELD_WIDTH as nat)
    } else {
        Seq::empty()
    }
}

/// Formats one column of a row: the value right-justified in eight columns
/// when `show`, the empty string otherwise.
pub fn format_field(value: usize, show: bool) -> (r: String)
    ensures
        r@ == field_text(value as nat, show),
{
    let mut out = String::new();
    if show {
        push_justified(&mut out, value as u64, FIELD_WIDTH);
        assert(out@ =~= field_text(value as nat, show));
    }
    out
}

/// Which counts a row shows, in the order lines, words, bytes, characters.
#[derive(Debug, Clone, Copy, PartialEq, Eq, Structural)]
pub struct Fields {
    pub lines: bool,
    pub words: bool,
    pub bytes: bool,
    pub chars: bool,
}

/// The selection in effect for the requested one: lines, words and bytes
/// when nothing is requested.
pub open spec fn resolved(lines: bool, words: bool, bytes: bool, chars: bool) -> Fields {
    if !lines && !words && !bytes && !chars {
        Fields { lines: true, words: true, bytes: true, chars: false }
    } else {
        Fields { lines, words, bytes, chars }
    }
}

/// A configuration that cannot be run.
#[derive(Debug, Clone, Copy, PartialEq, Eq, Structural)]
pub enum ConfigError {
    /// Bytes and characters were both requested.
    BytesAndChars,
}

/// The sources to count and the counts to show.
#[derive(Debug)]
pub struct Config {
    files: Vec<String>,
    fields: Fields,
}

impl Config {
    pub closed spec fn spec_files(&self) -> Seq<Seq<char>> {
        self.files@.map_values(|f: String| f@)
    }

    pub closed spec fn spec_fields(&self) -> Fields {
        self.fields
    }

    /// Builds a configuration, resolving the default selection once.
    /// Requesting both bytes and characters is refused.
    pub fn new(files: Vec<String>, lines: bool, words: bool, bytes: bool, chars: bool) -> (r: Result<
        Config,
        ConfigError,
    >)
        ensures
            r is Err <==> bytes && chars,
            r is Err ==> r->Err_0 == ConfigError::BytesAndChars,
            r is Ok ==> r->Ok_0.spec_files() == files@.map_values(|f: String| f@) && r->Ok_0.spec_fields()
                == resolved(lines, words, bytes, chars),
    {
        if bytes && chars {
            return Err(ConfigError::BytesAndChars);
        }
        let fields = if !lines && !words && !bytes && !chars {
            Fields { lines: true, words: true, bytes: true, chars: false }
        } else {
            Fields { lines, words, bytes, chars }
        };
        Ok(Config { files, fields })
    }

    /// The sources, in order; "-" stands for standard input.
    pub fn files(&self) -> (r: &Vec<String>)
        ensures
            r@.map_values(|f: String| f@) == self.spec_files(),
    {
        &self.files
    }

    /// The counts each row shows.
    pub fn fields(&self) -> (r: Fields)
        ensures
            r == self.spec_fields(),
    {
        self.fields
    }

    /// A total row follows the per-source rows when there is more than one source.
    pub fn shows_total(&self) -> (r: bool)
        ensures
            r == (self.spec_files().len() > 1),
    {
        self.files.len() > 1
    }
}

/// The selected columns for the four counts.
pub open spec fn columns(f: Fields, info: FileInfo) -> Seq<char> {
    field_text(info.num_lines as nat, f.lines) + field_text(info.num_words as nat, f.words)
        + field_text(info.num_bytes as nat, f.bytes) + field_text(info.num_chars as nat, f.chars)
}

/// The row of one source: its columns, then a space and its name unless the
/// source is standard input ("-").
pub open spec fn row_text(f: Fields, info: FileInfo, name: Seq<char>) -> Seq<char> {
    columns(f, info) + if name == seq!['-'] {
        Seq::<char>::empty()
    } else {
        seq![' '] + name
    }
}

/// The total row: its columns, then " total".
pub open spec fn total_row_text(f: Fields, info: FileInfo) -> Seq<char> {
    columns(f, info) + seq![' ', 't', 'o', 't', 'a', 'l']
}

fn push_columns(out: &mut String, fields: Fields, info: &FileInfo)
    ensures
        final(out)@ == old(out)@ + columns(fields, *info),
{
    let a = format_field(info.num_lines, fields.lines);
    out.append(a.as_str());
    let b = format_field(info.num_words, fields.words);
    out.append(b.as_str());
    let c = format_field(info.num_bytes, fields.bytes);
    out.append(c.as_str());
    let d = format_field(info.num_chars, fields.chars);
    out.append(d.as_str());
    assert(final(out)@ =~= old(out)@ + columns(fields, *info));
}

fn is_stdin_name(name: &str) -> (r: bool)
    ensures
        r == (name@ == seq!['-']),
{
    if name.unicode_len() == 1 {
        let c = name.get_char(0);
        if c == '-' {
            assert(name@ =~= seq!['-']);
        }
        c == '-'
    } else {
        false
    }
}

/// Formats the row of one source, without a line terminator.
pub fn format_row(fields: Fields, info: &FileInfo, name: &str) -> (r: String)
    ensures
        r@ == row_text(fields, *info, name@),
{
    let mut out = String::new();
    push_columns(&mut out, fields, info);
    if !is_stdin_name(name) {
        push_char(&mut out, ' ');
        out.append(name);
    }
    assert(out@ =~= row_text(fields, *info, name@));
    out
}

/// Formats the total row, without a line terminator.
pub fn format_total(fields: Fields, info: &FileInfo) -> (r: String)
    ensures
        r@ == total_row_text(fields, *info),
{
    let mut out = String::new();
    push_columns(&mut out, fields, info);
    push_char(&mut out, ' ');
    push_char(&mut out, 't');
    push_char(&mut out, 'o');
    push_char(&mut out, 't');
    push_char(&mut out, 'a');
    push_char(&mut out, 'l');
    assert(out@ =~= total_row_text(fields, *info));
    out
}

/// One of the four counts.
#[derive(Debug, Clone, Copy, PartialEq, Eq, Structural)]
pub enum Count {
    Lines,
    Words,
    Bytes,
    Chars,
}

/// The count `c` of `info`.
pub open spec fn pick(info: FileInfo, c: Count) -> nat {
    match c {
        Count::Lines => info.num_lines as nat,
        Count::Words => info.num_words as nat,
        Count::Bytes => info.num_bytes as nat,
        Count::Chars => info.num_chars as nat,
    }
}

/// The sum of the count `c` over `s`.
pub open spec fn sum_of(s: Seq<FileInfo>, c: Count) -> nat
    decreases s.len(),
{
    if s.len() == 0 {
        0
    } else {
        sum_of(s.drop_last(), c) + pick(s.last(), c)
    }
}

/// All four sums over `s` fit in a `usize`.
pub open spec fn sums_fit(s: Seq<FileInfo>) -> bool {
    &&& sum_of(s, Count::Lines) <= usize::MAX
    &&& sum_of(s, Count::Words) <= usize::MAX
    &&& sum_of(s, Count::Bytes) <= usize::MAX
    &&& sum_of(s, Count::Chars) <= usize::MAX
}

/// A sum over a prefix is at most the sum over the whole.
pub proof fn lemma_sum_prefix(s: Seq<FileInfo>, k: int, c: Count)
    requires
        0 <= k <= s.len(),
    ensures
        sum_of(s.subrange(0, k), c) <= sum_of(s, c),
    decreases s.len(),
{
    if k < s.len() {
        assert(s.drop_last().subrange(0, k) =~= s.subrange(0, k));
        lemma_sum_prefix(s.drop_last(), k, c);
    } else {
        assert(s.subrange(0, k) =~= s);
    }
}

fn add_or_none(acc: usize, x: usize) -> (r: Option<usize>)
    ensures
        r is Some <==> acc + x <= usize::MAX,
        r is Some ==> r->Some_0 == acc + x,
{
    if acc > usize::MAX - x {
        None
    } else {
        Some(acc + x)
    }
}

/// Sums each count over the sources that were read. `None` when a sum does
/// not fit in a `usize`.
pub fn total(infos: &Vec<FileInfo>) -> (r: Option<FileInfo>)
    ensures
        r is Some <==> sums_fit(infos@),
        r is Some ==> {
            let t = r->Some_0;
            &&& t.num_lines == sum_of(infos@, Count::Lines)
            &&& t.num_words == sum_of(infos@, Count::Words)
            &&& t.num_bytes == sum_of(infos@, Count::Bytes)
            &&& t.num_chars == sum_of(infos@, Count::Chars)
        },
{
    let ghost s = infos@;
    let mut t = FileInfo { num_lines: 0, num_words: 0, num_bytes: 0, num_chars: 0 };
    let mut k: usize = 0;
    while k < infos.len()
        invariant
            s == infos@,
            k <= s.len(),
            t.num_lines == sum_of(s.subrange(0, k as int), Count::Lines),
            t.num_words == sum_of(s.subrange(0, k as int), Count::Words),
            t.num_bytes == sum_of(s.subrange(0, k as int), Count::Bytes),
            t.num_chars == sum_of(s.subrange(0, k as int), Count::Chars),
        decreases s.len() - k,
    {
        let ghost next = s.subrange(0, k + 1);
        assert(next.drop_last() =~= s.subrange(0, k as int));
        let info = &infos[k];
        proof {
            lemma_sum_prefix(s, k + 1, Count::Lines);
            lemma_sum_prefix(s, k + 1, Count::Words);
            lemma_sum_prefix(s, k + 1, Count::Bytes);
            lemma_sum_prefix(s, k + 1, Count::Chars);
            assert(next.last() == *info);
            assert(sum_of(next, Count::Lines) == t.num_lines + info.num_lines);
            assert(sum_of(next, Count::Words) == t.num_words + info.num_words);
            assert(sum_of(next, Count::Bytes) == t.num_bytes + info.num_bytes);
            assert(sum_of(next, Count::Chars) == t.num_chars + info.num_chars);
        }
        match add_or_none(t.num_lines, info.num_lines) {
            None => {
                return None;
            },
            Some(v) => {
                t.num_lines = v;
            },
        }
        match add_or_none(t.num_words, info.num_words) {
            None => {
                return None;
            },
            Some(v) => {
                t.num_words = v;
            },
        }
        match add_or_none(t.num_bytes, info.num_bytes) {
            None => {
                return None;
            },
            Some(v) => {
                t.num_bytes = v;
            },
        }
        match add_or_none(t.num_chars, info.num_chars) {
            None => {
                return None;
            },
            Some(v) => {
                t.num_chars = v;
            },
        }
        k = k + 1;
    }
    assert(s.subrange(0, k as int) =~= s);
    Some(t)
}

} // verus!
