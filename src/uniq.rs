//! Collapsing of consecutive repeated lines.
use crate::text::{justified, push_char, push_justified};
use vstd::string::StringExecFns;
use vstd::prelude::*;
use vstd::std_specs::iter::IteratorSpec;

verus! {

broadcast use vstd::string::group_string_axioms;

/// Width of the repeat count in front of a record.
pub const COUNT_WIDTH: usize = 4;

/// `s` without its line terminator ("\n" or "\r\n"), if it has one.
pub open spec fn key(s: Seq<char>) -> Seq<char> {
    if s.len() > 0 && s.last() == '\n' {
        let t = s.drop_last();
        if t.len() > 0 && t.last() == '\r' {
            t.drop_last()
        } else {
            t
        }
    } else {
        s
    }
}

/// The record written for `repeats` consecutive copies of `line`.
pub open spec fn record(line: Seq<char>, repeats: nat, show_count: bool) -> Seq<char> {
    if show_count {
        justified(repeats, COUNT_WIDTH as nat) + seq![' '] + line
    } else {
        line
    }
}

/// What a run of `repeats` copies of `pending` leaves behind: nothing when
/// no run is open.
pub open spec fn flushed(pending: Seq<char>, repeats: nat, show_count: bool) -> Seq<Seq<char>> {
    if repeats > 0 {
        seq![record(pending, repeats, show_count)]
    } else {
        Seq::empty()
    }
}

/// A line ends the open run when there is one and it differs from it.
pub open spec fn ends_run(pending: Seq<char>, repeats: nat, line: Seq<char>) -> bool {
    repeats > 0 && key(line) != key(pending)
}

/// The run that is open after `line`.
pub open spec fn next_pending(pending: Seq<char>, repeats: nat, line: Seq<char>) -> (Seq<char>, nat) {
    if repeats == 0 || key(line) != key(pending) {
        (line, 1)
    } else {
        (pending, repeats + 1)
    }
}

/// The records written for `lines` when the open run is `repeats` copies of `pending`.
pub open spec fn collapse_from(
    pending: Seq<char>,
    repeats: nat,
    lines: Seq<Seq<char>>,
    show_count: bool,
) -> Seq<Seq<char>>
    decreases lines.len(),
{
    if lines.len() == 0 {
        flushed(pending, repeats, show_count)
    } else {
        let line = lines[0];
        let emitted = if ends_run(pending, repeats, line) {
            seq![record(pending, repeats, show_count)]
        } else {
            Seq::empty()
        };
        let (p, c) = next_pending(pending, repeats, line);
        emitted + collapse_from(p, c, lines.drop_first(), show_count)
    }
}

/// The records written for the whole input `lines`.
pub open spec fn collapse(lines: Seq<Seq<char>>, show_count: bool) -> Seq<Seq<char>> {
    collapse_from(Seq::empty(), 0, lines, show_count)
}

/// No two neighbouring records of `s` are equal once terminators are ignored.
pub open spec fn neighbours_differ(s: Seq<Seq<char>>) -> bool {
    forall|i: int| 0 <= i < s.len() - 1 ==> #[trigger] key(s[i]) != key(s[i + 1])
}

/// The records of an open run start with that run's line, and neighbouring
/// records differ.
pub proof fn lemma_collapse_from_shape(pending: Seq<char>, repeats: nat, lines: Seq<Seq<char>>)
    requires
        repeats > 0,
    ensures
        collapse_from(pending, repeats, lines, false).len() > 0,
        collapse_from(pending, repeats, lines, false)[0] == pending,
        neighbours_differ(collapse_from(pending, repeats, lines, false)),
    decreases lines.len(),
{
    if lines.len() > 0 {
        let line = lines[0];
        let rest = lines.drop_first();
        if ends_run(pending, repeats, line) {
            lemma_collapse_from_shape(line, 1, rest);
            let tail = collapse_from(line, 1, rest, false);
            let all = seq![pending] + tail;
            assert(collapse_from(pending, repeats, lines, false) == all);
            assert forall|i: int| 0 <= i < all.len() - 1 implies #[trigger] key(all[i]) != key(
                all[i + 1],
            ) by {
                if i > 0 {
                    assert(all[i] == tail[i - 1]);
                    assert(all[i + 1] == tail[i]);
                    assert(key(tail[i - 1]) != key(tail[(i - 1) + 1]));
                }
            }
        } else {
            lemma_collapse_from_shape(pending, repeats + 1, rest);
            assert(collapse_from(pending, repeats, lines, false) == collapse_from(
                pending,
                repeats + 1,
                rest,
                false,
            ));
        }
    }
}

/// Collapsing records whose neighbours already differ changes nothing.
pub proof fn lemma_collapse_from_distinct(pending: Seq<char>, repeats: nat, lines: Seq<Seq<char>>)
    requires
        repeats > 0,
        neighbours_differ(lines),
        lines.len() > 0 ==> key(lines[0]) != key(pending),
    ensures
        collapse_from(pending, repeats, lines, false) == seq![pending] + lines,
    decreases lines.len(),
{
    if lines.len() == 0 {
        assert(seq![pending] + lines =~= seq![pending]);
    } else {
        let rest = lines.drop_first();
        assert forall|i: int| 0 <= i < rest.len() - 1 implies #[trigger] key(rest[i]) != key(
            rest[i + 1],
        ) by {
            assert(key(lines[i + 1]) != key(lines[(i + 1) + 1]));
        }
        if rest.len() > 0 {
            assert(key(lines[0]) != key(lines[1]));
        }
        lemma_collapse_from_distinct(lines[0], 1, rest);
        assert(seq![lines[0]] + rest =~= lines);
        assert(seq![pending] + (seq![lines[0]] + rest) =~= seq![pending] + lines);
    }
}

/// Collapsing the output of collapsing (without counts) gives it back unchanged.
pub proof fn lemma_collapse_idempotent(lines: Seq<Seq<char>>)
    ensures
        collapse(collapse(lines, false), false) == collapse(lines, false),
{
    let once = collapse(lines, false);
    if lines.len() > 0 {
        lemma_collapse_from_shape(lines[0], 1, lines.drop_first());
        let rest = once.drop_first();
        assert forall|i: int| 0 <= i < rest.len() - 1 implies #[trigger] key(rest[i]) != key(
            rest[i + 1],
        ) by {
            assert(key(once[i + 1]) != key(once[(i + 1) + 1]));
        }
        if rest.len() > 0 {
            assert(key(once[0]) != key(once[1]));
        }
        lemma_collapse_from_distinct(once[0], 1, rest);
        assert(seq![once[0]] + rest =~= once);
    }
}

/// A single line, with or without a terminator, gives exactly one record.
pub proof fn lemma_single_line(line: Seq<char>, show_count: bool)
    ensures
        collapse(seq![line], show_count) == seq![record(line, 1, show_count)],
{
    let lines = seq![line];
    assert(lines.drop_first() =~= Seq::<Seq<char>>::empty());
    assert(collapse_from(line, 1, lines.drop_first(), show_count) == seq![
        record(line, 1, show_count),
    ]);
    assert(!ends_run(Seq::empty(), 0, line));
    assert(collapse(lines, show_count) =~= seq![record(line, 1, show_count)]);
}

/// The characters of `s`, one by one.
pub fn chars_of(s: &str) -> (r: Vec<char>)
    ensures
        r@ == s@,
{
    let mut it = s.chars();
    let mut out: Vec<char> = Vec::new();
    loop
        invariant
            out@.len() <= s@.len(),
            it.remaining() == s@.subrange(out@.len() as int, s@.len() as int),
            out@ == s@.subrange(0, out@.len() as int),
        ensures
            out@ == s@,
        decreases s@.len() - out@.len(),
    {
        match it.next() {
            None => {
                assert(s@.subrange(out@.len() as int, s@.len() as int).len() == 0);
                assert(out@ =~= s@);
                break;
            },
            Some(c) => {
                out.push(c);
                assert(out@ =~= s@.subrange(0, out@.len() as int));
            },
        }
    }
    out
}

/// The length of `v` without its line terminator.
fn key_len(v: &Vec<char>) -> (r: usize)
    ensures
        r <= v@.len(),
        v@.subrange(0, r as int) == key(v@),
{
    let n = v.len();
    if n > 0 && v[n - 1] == '\n' {
        if n > 1 && v[n - 2] == '\r' {
            assert(v@.subrange(0, n - 2) =~= key(v@));
            n - 2
        } else {
            assert(v@.subrange(0, n - 1) =~= key(v@));
            n - 1
        }
    } else {
        assert(v@.subrange(0, n as int) =~= key(v@));
        n
    }
}

/// Whether `a` and `b` are equal once terminators are ignored.
pub fn same_key(a: &Vec<char>, b: &Vec<char>) -> (r: bool)
    ensures
        r == (key(a@) == key(b@)),
{
    let la = key_len(a);
    let lb = key_len(b);
    if la != lb {
        assert(key(a@).len() != key(b@).len());
        return false;
    }
    let mut i: usize = 0;
    while i < la
        invariant
            la == lb,
            la <= a@.len(),
            la <= b@.len(),
            key(a@) == a@.subrange(0, la as int),
            key(b@) == b@.subrange(0, lb as int),
            i <= la,
            forall|j: int| 0 <= j < i ==> a@[j] == b@[j],
        decreases la - i,
    {
        if a[i] != b[i] {
            assert(key(a@) == a@.subrange(0, la as int));
            assert(key(b@) == b@.subrange(0, lb as int));
            assert(key(a@)[i as int] != key(b@)[i as int]);
            return false;
        }
        i = i + 1;
    }
    assert(key(a@) == a@.subrange(0, la as int));
    assert(key(b@) == b@.subrange(0, lb as int));
    assert(key(a@) =~= key(b@));
    true
}

/// Collapses consecutive repeated lines, one line at a time. The open run is
/// held until a different line or the end of input closes it.
pub struct Collapser {
    pending: String,
    pending_chars: Vec<char>,
    repeats: u64,
    show_count: bool,
}

impl Collapser {
    /// The line of the open run.
    pub closed spec fn spec_pending(&self) -> Seq<char> {
        self.pending@
    }

    /// How many lines the open run holds; 0 when no run is open.
    pub closed spec fn spec_repeats(&self) -> nat {
        self.repeats as nat
    }

    pub closed spec fn spec_show_count(&self) -> bool {
        self.show_count
    }

    pub closed spec fn wf(&self) -> bool {
        self.pending_chars@ == self.pending@
    }

    /// A collapser with no open run.
    pub fn new(show_count: bool) -> (r: Collapser)
        ensures
            r.wf(),
            r.spec_pending() == Seq::<char>::empty(),
            r.spec_repeats() == 0,
            r.spec_show_count() == show_count,
    {
        Collapser { pending: String::new(), pending_chars: Vec::new(), repeats: 0, show_count }
    }

    /// How many lines the open run holds.
    pub fn repeats(&self) -> (r: u64)
        ensures
            r == self.spec_repeats(),
    {
        self.repeats
    }

    fn render(&self) -> (r: String)
        ensures
            r@ == record(self.spec_pending(), self.spec_repeats(), self.spec_show_count()),
    {
        if self.show_count {
            let mut out = String::new();
            push_justified(&mut out, self.repeats, COUNT_WIDTH);
            push_char(&mut out, ' ');
            out.append(self.pending.as_str());
            assert(out@ =~= record(self.spec_pending(), self.spec_repeats(), self.spec_show_count()));
            out
        } else {
            self.pending.clone()
        }
    }

    /// Takes the next line, terminator included. Returns the record of the
    /// run that this line closes, if it closes one.
    pub fn push(&mut self, line: String) -> (r: Option<String>)
        requires
            old(self).wf(),
            old(self).spec_repeats() < u64::MAX,
        ensures
            final(self).wf(),
            final(self).spec_show_count() == old(self).spec_show_count(),
            r is Some <==> ends_run(old(self).spec_pending(), old(self).spec_repeats(), line@),
            r is Some ==> r->Some_0@ == record(
                old(self).spec_pending(),
                old(self).spec_repeats(),
                old(self).spec_show_count(),
            ),
            (final(self).spec_pending(), final(self).spec_repeats()) == next_pending(
                old(self).spec_pending(),
                old(self).spec_repeats(),
                line@,
            ),
    {
        let line_chars = chars_of(line.as_str());
        if self.repeats == 0 {
            self.pending = line;
            self.pending_chars = line_chars;
            self.repeats = 1;
            None
        } else if same_key(&line_chars, &self.pending_chars) {
            self.repeats = self.repeats + 1;
            None
        } else {
            let out = self.render();
            self.pending = line;
            self.pending_chars = line_chars;
            self.repeats = 1;
            Some(out)
        }
    }

    /// Ends the input: returns the record of the open run, if there is one.
    pub fn finish(&self) -> (r: Option<String>)
        ensures
            r is Some <==> self.spec_repeats() > 0,
            r is Some ==> seq![r->Some_0@] == flushed(
                self.spec_pending(),
                self.spec_repeats(),
                self.spec_show_count(),
            ),
    {
        if self.repeats > 0 {
            Some(self.render())
        } else {
            None
        }
    }
}

/// The views of a sequence of strings.
pub open spec fn views(v: Seq<String>) -> Seq<Seq<char>> {
    v.map_values(|s: String| s@)
}

/// Collapses a whole sequence of lines (terminators included) into its records.
pub fn collapse_lines(lines: &Vec<String>, show_count: bool) -> (r: Vec<String>)
    ensures
        views(r@) == collapse(views(lines@), show_count),
{
    let ghost all = views(lines@);
    let mut c = Collapser::new(show_count);
    let mut out: Vec<String> = Vec::new();
    let mut i: usize = 0;
    assert(all.subrange(0, all.len() as int) =~= all);
    assert(views(out@) =~= Seq::<Seq<char>>::empty());
    while i < lines.len()
        invariant
            all == views(lines@),
            i <= lines@.len(),
            c.wf(),
            c.spec_show_count() == show_count,
            c.spec_repeats() <= i,
            views(out@) + collapse_from(
                c.spec_pending(),
                c.spec_repeats(),
                all.subrange(i as int, all.len() as int),
                show_count,
            ) == collapse(all, show_count),
        decreases lines@.len() - i,
    {
        let ghost before = views(out@);
        let ghost rest = all.subrange(i as int, all.len() as int);
        let ghost p = c.spec_pending();
        let ghost k = c.spec_repeats();
        assert(rest.drop_first() =~= all.subrange(i + 1, all.len() as int));
        assert(rest[0] == lines@[i as int]@);
        let line = lines[i].clone();
        match c.push(line) {
            Some(rec) => {
                out.push(rec);
                assert(views(out@) =~= before + seq![record(p, k, show_count)]);
            },
            None => {},
        }
        i = i + 1;
    }
    assert(all.subrange(i as int, all.len() as int) =~= Seq::<Seq<char>>::empty());
    let ghost before = views(out@);
    match c.finish() {
        Some(rec) => {
            out.push(rec);
            assert(views(out@) =~= before + flushed(c.spec_pending(), c.spec_repeats(), show_count));
        },
        None => {
            assert(flushed(c.spec_pending(), c.spec_repeats(), show_count) =~= Seq::empty());
            assert(views(out@) =~= before + flushed(c.spec_pending(), c.spec_repeats(), show_count));
        },
    }
    out
}

/// The source to read, where to write, and whether records carry counts.
#[derive(Debug)]
pub struct Config {
    in_file: String,
    out_file: Option<String>,
    count: bool,
}

impl Config {
    pub closed spec fn spec_in_file(&self) -> Seq<char> {
        self.in_file@
    }

    pub closed spec fn spec_out_file(&self) -> Option<Seq<char>> {
        match self.out_file {
            Some(f) => Some(f@),
            None => None,
        }
    }

    pub closed spec fn spec_count(&self) -> bool {
        self.count
    }

    /// Builds a configuration: the input ("-" for standard input), the
    /// output file (standard output when absent), and whether to show counts.
    pub fn new(in_file: String, out_file: Option<String>, count: bool) -> (r: Config)
        ensures
            r.spec_in_file() == in_file@,
            r.spec_out_file() == (match out_file {
                Some(f) => Some(f@),
                None => None,
            }),
            r.spec_count() == count,
    {
        Config { in_file, out_file, count }
    }

    /// The input; "-" stands for standard input.
    pub fn in_file(&self) -> (r: &String)
        ensures
            r@ == self.spec_in_file(),
    {
        &self.in_file
    }

    /// The output file, if records go to a file.
    pub fn out_file(&self) -> (r: Option<&String>)
        ensures
            r is Some <==> self.spec_out_file() is Some,
            r is Some ==> r->Some_0@ == self.spec_out_file()->Some_0,
    {
        match &self.out_file {
            Some(f) => Some(f),
            None => None,
        }
    }

    /// Whether records carry their repeat counts.
    pub fn count(&self) -> (r: bool)
        ensures
            r == self.spec_count(),
    {
        self.count
    }
}

} // verus!
