//! Decimal numerals: rendering a count as canonical digits and parsing
//! digits back, with the round-trip proof the snapshot codec rests on.

use vstd::prelude::*;

verus! {

pub open spec fn is_digit(c: char) -> bool {
    c == '0' || c == '1' || c == '2' || c == '3' || c == '4' || c == '5' || c == '6' || c == '7'
        || c == '8' || c == '9'
}

pub open spec fn digit_char(d: nat) -> char {
    if d == 0 {
        '0'
    } else if d == 1 {
        '1'
    } else if d == 2 {
        '2'
    } else if d == 3 {
        '3'
    } else if d == 4 {
        '4'
    } else if d == 5 {
        '5'
    } else if d == 6 {
        '6'
    } else if d == 7 {
        '7'
    } else if d == 8 {
        '8'
    } else {
        '9'
    }
}

pub open spec fn digit_val(c: char) -> nat {
    if c == '0' {
        0
    } else if c == '1' {
        1
    } else if c == '2' {
        2
    } else if c == '3' {
        3
    } else if c == '4' {
        4
    } else if c == '5' {
        5
    } else if c == '6' {
        6
    } else if c == '7' {
        7
    } else if c == '8' {
        8
    } else {
        9
    }
}

/// The canonical decimal numeral of `n`, most significant digit first.
pub open spec fn dec_digits(n: nat) -> Seq<char>
    decreases n,
{
    if n < 10 {
        seq![digit_char(n)]
    } else {
        dec_digits(n / 10) + seq![digit_char(n % 10)]
    }
}

pub proof fn lemma_dec_digits_are_digits(n: nat)
    ensures
        dec_digits(n).len() > 0,
        forall|i: int| 0 <= i < dec_digits(n).len() ==> is_digit(dec_digits(n)[i]),
    decreases n,
{
    if n >= 10 {
        lemma_dec_digits_are_digits(n / 10);
    }
}

/// The value of a digit sequence read as a decimal numeral.
pub open spec fn seq_val(s: Seq<char>) -> nat
    decreases s.len(),
{
    if s.len() == 0 {
        0
    } else {
        seq_val(s.drop_last()) * 10 + digit_val(s.last())
    }
}

pub proof fn lemma_digit_char_val(d: nat)
    requires
        d < 10,
    ensures
        digit_val(digit_char(d)) == d,
        is_digit(digit_char(d)),
{
}

pub proof fn lemma_seq_val_dec(n: nat)
    ensures
        seq_val(dec_digits(n)) == n,
    decreases n,
{
    assert(seq_val(Seq::<char>::empty()) == 0);
    if n < 10 {
        lemma_digit_char_val(n);
        assert(dec_digits(n) == seq![digit_char(n)]);
        assert(dec_digits(n).drop_last() =~= Seq::<char>::empty());
        assert(dec_digits(n).last() == digit_char(n));
    } else {
        lemma_seq_val_dec(n / 10);
        lemma_digit_char_val(n % 10);
        assert(dec_digits(n).drop_last() =~= dec_digits(n / 10));
        assert(dec_digits(n).last() == digit_char(n % 10));
        assert(n / 10 * 10 + n % 10 == n);
    }
}

/// Length of the maximal digit prefix of `s`.
pub open spec fn digit_prefix_len(s: Seq<char>) -> int
    decreases s.len(),
{
    if s.len() == 0 || !is_digit(s[0]) {
        0
    } else {
        1 + digit_prefix_len(s.skip(1))
    }
}

pub proof fn lemma_digit_prefix_bounds(s: Seq<char>)
    ensures
        0 <= digit_prefix_len(s) <= s.len(),
    decreases s.len(),
{
    if s.len() > 0 && is_digit(s[0]) {
        lemma_digit_prefix_bounds(s.skip(1));
    }
}

pub proof fn lemma_digit_prefix_of_concat(p: Seq<char>, r: Seq<char>)
    requires
        forall|i: int| 0 <= i < p.len() ==> is_digit(p[i]),
        r.len() == 0 || !is_digit(r[0]),
    ensures
        digit_prefix_len(p + r) == p.len(),
    decreases p.len(),
{
    if p.len() == 0 {
        assert(p + r =~= r);
    } else {
        assert((p + r)[0] == p[0]);
        assert((p + r).skip(1) =~= p.skip(1) + r);
        lemma_digit_prefix_of_concat(p.skip(1), r);
    }
}

/// Parses the maximal digit prefix of `s` as a count: `None` when there is
/// no leading digit or the value exceeds `u64::MAX`; otherwise the value
/// and the unread remainder.
pub open spec fn spec_parse_count(s: Seq<char>) -> Option<(u64, Seq<char>)> {
    let k = digit_prefix_len(s);
    if k == 0 {
        None
    } else if seq_val(s.take(k)) > u64::MAX {
        None
    } else {
        Some(((seq_val(s.take(k)) as u64), s.skip(k)))
    }
}

/// Parsing inverts rendering: the canonical numeral of `n`, followed by
/// anything that does not begin with a digit, parses back to `n`.
pub proof fn lemma_parse_count_inverts(n: u64, rest: Seq<char>)
    requires
        rest.len() == 0 || !is_digit(rest[0]),
    ensures
        spec_parse_count(dec_digits(n as nat) + rest) == Some((n, rest)),
{
    let d = dec_digits(n as nat);
    lemma_dec_digits_are_digits(n as nat);
    lemma_digit_prefix_of_concat(d, rest);
    lemma_seq_val_dec(n as nat);
    assert((d + rest).take(d.len() as int) =~= d);
    assert((d + rest).skip(d.len() as int) =~= rest);
}

fn digit_str(d: u64) -> (r: &'static str)
    requires
        d < 10,
    ensures
        r@ == seq![digit_char(d as nat)],
{
    if d == 0 {
        proof {
            reveal_strlit("0");
            assert("0"@ =~= seq!['0']);
        }
        "0"
    } else if d == 1 {
        proof {
            reveal_strlit("1");
            assert("1"@ =~= seq!['1']);
        }
        "1"
    } else if d == 2 {
        proof {
            reveal_strlit("2");
            assert("2"@ =~= seq!['2']);
        }
        "2"
    } else if d == 3 {
        proof {
            reveal_strlit("3");
            assert("3"@ =~= seq!['3']);
        }
        "3"
    } else if d == 4 {
        proof {
            reveal_strlit("4");
            assert("4"@ =~= seq!['4']);
        }
        "4"
    } else if d == 5 {
        proof {
            reveal_strlit("5");
            assert("5"@ =~= seq!['5']);
        }
        "5"
    } else if d == 6 {
        proof {
            reveal_strlit("6");
            assert("6"@ =~= seq!['6']);
        }
        "6"
    } else if d == 7 {
        proof {
            reveal_strlit("7");
            assert("7"@ =~= seq!['7']);
        }
        "7"
    } else if d == 8 {
        proof {
            reveal_strlit("8");
            assert("8"@ =~= seq!['8']);
        }
        "8"
    } else {
        proof {
            reveal_strlit("9");
            assert("9"@ =~= seq!['9']);
        }
        "9"
    }
}

/// Renders `n` as its canonical decimal numeral.
pub fn render_count(n: u64) -> (r: String)
    ensures
        r@ == dec_digits(n as nat),
    decreases n,
{
    if n < 10 {
        String::from_str(digit_str(n))
    } else {
        let mut s = render_count(n / 10);
        s.append(digit_str(n % 10));
        proof {
            assert(s@ =~= dec_digits(n as nat));
        }
        s
    }
}

fn digit_of(c: char) -> (r: Option<u64>)
    ensures
        match r {
            Some(v) => is_digit(c) && v < 10 && v as nat == digit_val(c),
            None => !is_digit(c),
        },
{
    if c == '0' {
        Some(0)
    } else if c == '1' {
        Some(1)
    } else if c == '2' {
        Some(2)
    } else if c == '3' {
        Some(3)
    } else if c == '4' {
        Some(4)
    } else if c == '5' {
        Some(5)
    } else if c == '6' {
        Some(6)
    } else if c == '7' {
        Some(7)
    } else if c == '8' {
        Some(8)
    } else if c == '9' {
        Some(9)
    } else {
        None
    }
}

/// Parses the maximal digit run of `s` starting at position `i`.
pub fn parse_count_at(s: &str, i: usize) -> (r: Option<(u64, usize)>)
    requires
        i <= s@.len(),
    ensures
        match r {
            Some(p) => i < p.1 <= s@.len() && spec_parse_count(s@.skip(i as int)) == Some(
                (p.0, s@.skip(p.1 as int)),
            ),
            None => spec_parse_count(s@.skip(i as int)) is None,
        },
{
    let n = s.unicode_len();
    let mut j: usize = i;
    let mut acc: u64 = 0;
    let mut overflow: bool = false;
    loop
        invariant
            i <= j <= n,
            n == s@.len(),
            digit_prefix_len(s@.skip(i as int)) == (j - i) + digit_prefix_len(
                s@.skip(j as int),
            ),
            !overflow ==> acc as nat == seq_val(s@.subrange(i as int, j as int)) && acc
                <= u64::MAX,
            overflow ==> seq_val(s@.subrange(i as int, j as int)) > u64::MAX,
        ensures
            i <= j <= n,
            digit_prefix_len(s@.skip(j as int)) == 0,
            digit_prefix_len(s@.skip(i as int)) == j - i,
            !overflow ==> acc as nat == seq_val(s@.subrange(i as int, j as int)) && acc
                <= u64::MAX,
            overflow ==> seq_val(s@.subrange(i as int, j as int)) > u64::MAX,
        decreases n - j,
    {
        proof {
            lemma_digit_prefix_bounds(s@.skip(j as int));
        }
        if j >= n {
            proof {
                assert(s@.skip(j as int).len() == 0);
            }
            break ;
        }
        let c = s.get_char(j);
        proof {
            assert(s@.skip(j as int)[0] == s@[j as int]);
        }
        match digit_of(c) {
            None => {
                break ;
            },
            Some(d) => {
                proof {
                    assert(s@.skip(j as int).skip(1) =~= s@.skip(j as int + 1));
                    assert(s@.subrange(i as int, j as int + 1).drop_last() =~= s@.subrange(
                        i as int,
                        j as int,
                    ));
                    assert(s@.subrange(i as int, j as int + 1).last() == s@[j as int]);
                }
                if overflow {
                    proof {
                        assert(seq_val(s@.subrange(i as int, j as int + 1)) > u64::MAX);
                    }
                } else if acc <= (u64::MAX - d) / 10 {
                    proof {
                        assert(acc as nat * 10 + d as nat <= u64::MAX) by (nonlinear_arith)
                            requires
                                acc <= (u64::MAX - d) / 10,
                                d < 10,
                        ;
                    }
                    acc = acc * 10 + d;
                } else {
                    proof {
                        assert(acc as nat * 10 + d as nat > u64::MAX) by (nonlinear_arith)
                            requires
                                acc > (u64::MAX - d) / 10,
                                d < 10,
                        ;
                    }
                    overflow = true;
                }
                j += 1;
            },
        }
    }
    if j == i {
        return None;
    }
    proof {
        assert(s@.skip(i as int).take((j - i) as int) =~= s@.subrange(i as int, j as int));
        assert(s@.skip(i as int).skip((j - i) as int) =~= s@.skip(j as int));
    }
    if overflow {
        return None;
    }
    Some((acc, j))
}

} // verus!
