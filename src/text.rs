//! Decimal rendering and right-justification of numbers.
use vstd::prelude::*;

verus! {

/// The character of a decimal digit.
pub open spec fn digit_char(d: nat) -> char {
    seq!['0', '1', '2', '3', '4', '5', '6', '7', '8', '9'][d as int]
}

/// The decimal representation of `n`, without sign or leading zeros.
pub open spec fn decimal(n: nat) -> Seq<char>
    decreases n,
{
    if n < 10 {
        seq![digit_char(n)]
    } else {
        decimal(n / 10).push(digit_char(n % 10))
    }
}

/// `s` right-justified with spaces in a field at least `width` wide.
pub open spec fn pad_left(s: Seq<char>, width: nat) -> Seq<char> {
    if s.len() >= width {
        s
    } else {
        Seq::new((width - s.len()) as nat, |i: int| ' ') + s
    }
}

/// The decimal representation of `n`, right-justified in `width` columns.
pub open spec fn justified(n: nat, width: nat) -> Seq<char> {
    pad_left(decimal(n), width)
}

/// Every number has at least one digit, and one more than its tenth.
pub proof fn lemma_decimal_len(n: nat)
    ensures
        1 <= decimal(n).len(),
        n >= 10 ==> decimal(n).len() == decimal(n / 10).len() + 1,
    decreases n,
{
    if n >= 10 {
        lemma_decimal_len(n / 10);
    }
}

/// Ten to the power `k`.
pub open spec fn pow10(k: nat) -> nat
    decreases k,
{
    if k == 0 {
        1
    } else {
        10 * pow10((k - 1) as nat)
    }
}

/// A number below `10^k` has at most `k` digits.
pub proof fn lemma_decimal_len_bound(n: nat, k: nat)
    requires
        k >= 1,
        n < pow10(k),
    ensures
        decimal(n).len() <= k,
    decreases n,
{
    lemma_decimal_len(n);
    if n >= 10 {
        assert(k >= 2) by {
            if k == 1 {
                assert(pow10(1) == 10 * pow10(0));
            }
        }
        let k1 = (k - 1) as nat;
        assert(pow10(k) == 10 * pow10(k1));
        assert(n / 10 < pow10(k1)) by (nonlinear_arith)
            requires
                n < 10 * pow10(k1),
        ;
        lemma_decimal_len_bound(n / 10, k1);
    }
}

/// Relies on String::push: the character is appended at the end.
#[verifier::external_body]
pub(crate) fn push_char(s: &mut String, c: char)
    ensures
        final(s)@ == old(s)@.push(c),
{
    s.push(c);
}

fn digit(d: u64) -> (c: char)
    requires
        d < 10,
    ensures
        c == digit_char(d as nat),
{
    let digits: [char; 10] = ['0', '1', '2', '3', '4', '5', '6', '7', '8', '9'];
    digits[d as usize]
}

/// Appends the decimal representation of `n`.
pub fn push_decimal(out: &mut String, n: u64)
    ensures
        final(out)@ == old(out)@ + decimal(n as nat),
    decreases n,
{
    if n >= 10 {
        push_decimal(out, n / 10);
    }
    push_char(out, digit(n % 10));
    assert(final(out)@ =~= old(out)@ + decimal(n as nat));
}

/// The number of digits in the decimal representation of `n`.
pub fn decimal_len(n: u64) -> (r: usize)
    ensures
        r as nat == decimal(n as nat).len(),
        1 <= r <= 20,
{
    proof {
        reveal_with_fuel(pow10, 21);
        assert(pow10(20) == 100_000_000_000_000_000_000nat);
        lemma_decimal_len_bound(n as nat, 20);
    }
    let mut m: u64 = n;
    let mut len: usize = 1;
    while m >= 10
        invariant
            1 <= len,
            decimal(n as nat).len() <= 20,
            decimal(n as nat).len() == decimal(m as nat).len() + len - 1,
        decreases m,
    {
        proof {
            lemma_decimal_len(m as nat);
            lemma_decimal_len((m / 10) as nat);
        }
        m = m / 10;
        len = len + 1;
    }
    proof {
        lemma_decimal_len(m as nat);
    }
    len
}

/// Appends `n` right-justified in a field of at least `width` columns.
pub fn push_justified(out: &mut String, n: u64, width: usize)
    ensures
        final(out)@ == old(out)@ + justified(n as nat, width as nat),
{
    let len = decimal_len(n);
    let ghost start = out@;
    let mut filled: usize = len;
    while filled < width
        invariant
            len <= filled,
            len < width ==> filled <= width,
            len >= width ==> filled == len,
            out@ == start + Seq::new((filled - len) as nat, |i: int| ' '),
        decreases width - filled,
    {
        push_char(out, ' ');
        filled = filled + 1;
        assert(out@ =~= start + Seq::new((filled - len) as nat, |i: int| ' '));
    }
    if len >= width {
        assert(out@ =~= start);
    }
    push_decimal(out, n);
    if len >= width {
        assert(final(out)@ =~= old(out)@ + justified(n as nat, width as nat));
    } else {
        let ghost sp = Seq::new((width - len) as nat, |i: int| ' ');
        assert(filled == width);
        assert(justified(n as nat, width as nat) == sp + decimal(n as nat));
        assert(final(out)@ =~= old(out)@ + (sp + decimal(n as nat)));
    }
}

} // verus!
