use vstd::prelude::*;

verus! {

/// The character for a single decimal digit.
pub open spec fn digit_char(d: nat) -> char {
    if d == 0 {
        '0'
    } else if d == 1 {
        '1'
    } else if d == 2 {
        '2'
    } else if d == 3 {
        '3'
    } else if d == 4 {
        '4'
    } else if d == 5 {
        '5'
    } else if d == 6 {
        '6'
    } else if d == 7 {
        '7'
    } else if d == 8 {
        '8'
    } else {
        '9'
    }
}

/// The decimal representation of `n`, most significant digit first,
/// with no leading zeros (except for `n == 0` itself).
pub open spec fn spec_decimal(n: nat) -> Seq<char>
    decreases n,
{
    if n < 10 {
        seq![digit_char(n)]
    } else {
        spec_decimal(n / 10) + seq![digit_char(n % 10)]
    }
}

/// The number of digits in the decimal representation of `n`.
pub open spec fn spec_digit_count(n: nat) -> nat
    decreases n,
{
    if n < 10 {
        1
    } else {
        1 + spec_digit_count(n / 10)
    }
}

fn digit_str(d: usize) -> (r: &'static str)
    requires
        d < 10,
    ensures
        r@ == seq![digit_char(d as nat)],
{
    proof {
        reveal_strlit("0");
        reveal_strlit("1");
        reveal_strlit("2");
        reveal_strlit("3");
        reveal_strlit("4");
        reveal_strlit("5");
        reveal_strlit("6");
        reveal_strlit("7");
        reveal_strlit("8");
        reveal_strlit("9");
    }
    match d {
        0 => "0",
        1 => "1",
        2 => "2",
        3 => "3",
        4 => "4",
        5 => "5",
        6 => "6",
        7 => "7",
        8 => "8",
        _ => "9",
    }
}

/// Render `n` in decimal.
pub fn usize_to_string(n: usize) -> (r: String)
    ensures
        r@ == spec_decimal(n as nat),
    decreases n,
{
    if n < 10 {
        digit_str(n).to_owned()
    } else {
        let mut s = usize_to_string(n / 10);
        s.append(digit_str(n % 10));
        s
    }
}

/// The number of digits of `n` in decimal.
pub fn digit_count(n: usize) -> (r: usize)
    ensures
        r == spec_digit_count(n as nat),
        r >= 1,
    decreases n,
{
    if n < 10 {
        1
    } else {
        let rest = digit_count(n / 10);
        proof {
            lemma_digit_count_bound((n / 10) as nat);
        }
        1 + rest
    }
}

/// Digit counts are small: at most one digit per factor of ten.
pub proof fn lemma_digit_count_bound(n: nat)
    ensures
        spec_digit_count(n) <= n + 1,
    decreases n,
{
    if n >= 10 {
        lemma_digit_count_bound(n / 10);
    }
}


/// `x` clamped into `[lo, hi]`, where `lo <= hi`; the lower bound wins
/// when the bounds cross, matching `usize::clamp`'s tie-breaking as the
/// editor uses it (bounds are always ordered at the call sites).
pub fn clamp_usize(x: usize, lo: usize, hi: usize) -> (r: usize)
    requires
        lo <= hi,
    ensures
        r == if x < lo {
            lo as int
        } else if x > hi {
            hi as int
        } else {
            x as int
        },
{
    if x < lo {
        lo
    } else if x > hi {
        hi
    } else {
        x
    }
}

} // verus!

verus! {

/// Powers of ten.
pub open spec fn pow10(k: nat) -> nat
    decreases k,
{
    if k == 0 {
        1
    } else {
        10 * pow10((k - 1) as nat)
    }
}

/// A number below the `k`-th power of ten has at most `k` digits.
pub proof fn lemma_digit_count_lt(n: nat, k: nat)
    requires
        k >= 1,
        n < pow10(k),
    ensures
        spec_digit_count(n) <= k,
    decreases k,
{
    if n >= 10 {
        assert(pow10(k) == 10 * pow10((k - 1) as nat));
        assert(n / 10 < pow10((k - 1) as nat)) by (nonlinear_arith)
            requires
                n < 10 * pow10((k - 1) as nat),
                pow10((k - 1) as nat) > 0,
        {
            lemma_pow10_pos((k - 1) as nat);
        }
        assert(pow10((k - 1) as nat) > 1) by {
            lemma_pow10_pos((k - 1) as nat);
            if k == 1 {
                assert(pow10(0nat) == 1);
                assert(false);
            } else {
                lemma_pow10_pos((k - 2) as nat);
            }
        }
        lemma_digit_count_lt(n / 10, (k - 1) as nat);
    }
}

/// Twenty factors of ten exceed any 64-bit count.
pub proof fn lemma_pow10_20()
    ensures
        pow10(20) == 100000000000000000000,
{
    assert(pow10(0) == 1);
    assert(pow10(1) == 10);
    assert(pow10(2) == 100);
    assert(pow10(3) == 1000);
    assert(pow10(4) == 10000);
    assert(pow10(5) == 100000);
    assert(pow10(6) == 1000000);
    assert(pow10(7) == 10000000);
    assert(pow10(8) == 100000000);
    assert(pow10(9) == 1000000000);
    assert(pow10(10) == 10000000000);
    assert(pow10(11) == 100000000000);
    assert(pow10(12) == 1000000000000);
    assert(pow10(13) == 10000000000000);
    assert(pow10(14) == 100000000000000);
    assert(pow10(15) == 1000000000000000);
    assert(pow10(16) == 10000000000000000);
    assert(pow10(17) == 100000000000000000);
    assert(pow10(18) == 1000000000000000000);
    assert(pow10(19) == 10000000000000000000);
    assert(pow10(20) == 100000000000000000000);
}

/// Powers of ten are positive.
pub proof fn lemma_pow10_pos(k: nat)
    ensures
        pow10(k) >= 1,
    decreases k,
{
    if k > 0 {
        lemma_pow10_pos((k - 1) as nat);
    }
}

/// The lines a text splits into at line feeds; a text always holds at least
/// one (possibly empty) line.
pub open spec fn split_on_newline(s: Seq<char>) -> Seq<Seq<char>>
    decreases s.len(),
{
    if s.len() == 0 {
        seq![Seq::<char>::empty()]
    } else if s[0] == '\n' {
        seq![Seq::<char>::empty()] + split_on_newline(s.drop_first())
    } else {
        let rest = split_on_newline(s.drop_first());
        seq![seq![s[0]] + rest[0]] + rest.drop_first()
    }
}

/// A line with one trailing carriage return stripped.
pub open spec fn strip_cr(line: Seq<char>) -> Seq<char> {
    if line.len() > 0 && line.last() == '\r' {
        line.drop_last()
    } else {
        line
    }
}

/// Whether any raw line carries a trailing carriage return: the mark of a
/// CRLF file.
pub open spec fn has_trailing_cr(lines: Seq<Seq<char>>) -> bool {
    exists|i: int|
        0 <= i < lines.len() && (#[trigger] lines[i]).len() > 0 && lines[i].last() == '\r'
}

/// The stripped lines of a text.
pub open spec fn spec_lines(s: Seq<char>) -> Seq<Seq<char>> {
    split_on_newline(s).map_values(|l: Seq<char>| strip_cr(l))
}

/// A split yields at least one line.
pub proof fn lemma_split_len(s: Seq<char>)
    ensures
        split_on_newline(s).len() >= 1,
    decreases s.len(),
{
    if s.len() > 0 {
        lemma_split_len(s.drop_first());
    }
}

/// If the first `k` characters hold no line feed and position `k` is a line
/// feed (or the end), the first line is exactly those `k` characters.
pub proof fn lemma_split_boundary(s: Seq<char>, k: int)
    requires
        0 <= k <= s.len(),
        forall|j: int| 0 <= j < k ==> s[j] != '\n',
        k == s.len() || s[k] == '\n',
    ensures
        k == s.len() ==> split_on_newline(s) == seq![s],
        k < s.len() ==> split_on_newline(s) == seq![s.take(k)] + split_on_newline(s.skip(k + 1)),
    decreases k,
{
    lemma_split_len(s);
    if k == 0 {
        if s.len() == 0 {
            assert(s =~= Seq::<char>::empty());
            assert(split_on_newline(s) == seq![Seq::<char>::empty()]);
        } else {
            assert(s[0] == '\n');
            assert(s.take(0) =~= Seq::<char>::empty());
            assert(s.skip(1) =~= s.drop_first());
            assert(split_on_newline(s) =~= seq![s.take(0)] + split_on_newline(s.skip(1)));
        }
    } else {
        let d = s.drop_first();
        assert(s[0] != '\n');
        assert(forall|j: int| 0 <= j < k - 1 ==> #[trigger] d[j] == s[j + 1]);
        lemma_split_boundary(d, k - 1);
        lemma_split_len(d);
        let rest = split_on_newline(d);
        if k == s.len() {
            assert(rest == seq![d]);
            assert(seq![s[0]] + rest[0] =~= s);
            assert(rest.drop_first() =~= Seq::<Seq<char>>::empty());
            assert(split_on_newline(s) =~= seq![s]);
        } else {
            assert(rest == seq![d.take(k - 1)] + split_on_newline(d.skip(k)));
            assert(seq![s[0]] + rest[0] =~= s.take(k));
            assert(d.skip(k) =~= s.skip(k + 1));
            assert(rest.drop_first() =~= split_on_newline(s.skip(k + 1)));
            assert(split_on_newline(s) =~= seq![s.take(k)] + split_on_newline(s.skip(k + 1)));
        }
    }
}

} // verus!
