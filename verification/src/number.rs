//! Numbers as text: rendering in decimal and octal, and parsing decimal.
use vstd::prelude::*;
use crate::text::chars_of;

verus! {

/// The character of the digit `d`.
pub open spec fn digit_char(d: nat) -> char {
    (48 + d) as char
}

/// The digits of `n` in base `base`, most significant first, without
/// leading zeros (`0` is the single digit `0`).
pub open spec fn digits(n: nat, base: nat) -> Seq<char>
    decreases n,
{
    if base <= 1 || n < base {
        seq![digit_char(n)]
    } else {
        proof {
            vstd::arithmetic::div_mod::lemma_div_decreases(n as int, base as int);
        }
        digits(n / base, base).push(digit_char(n % base))
    }
}

/// The decimal text of an integer, with a leading `-` when negative.
pub open spec fn int_text(n: int) -> Seq<char> {
    if n < 0 {
        "-"@ + digits((-n) as nat, 10)
    } else {
        digits(n as nat, 10)
    }
}

/// The one-character text of the digit `d`.
fn digit_text(d: u64) -> (s: &'static str)
    requires
        d < 10,
    ensures
        s@ == seq![digit_char(d as nat)],
{
    if d == 0 {
        proof {
            reveal_strlit("0");
        }
        "0"
    } else if d == 1 {
        proof {
            reveal_strlit("1");
        }
        "1"
    } else if d == 2 {
        proof {
            reveal_strlit("2");
        }
        "2"
    } else if d == 3 {
        proof {
            reveal_strlit("3");
        }
        "3"
    } else if d == 4 {
        proof {
            reveal_strlit("4");
        }
        "4"
    } else if d == 5 {
        proof {
            reveal_strlit("5");
        }
        "5"
    } else if d == 6 {
        proof {
            reveal_strlit("6");
        }
        "6"
    } else if d == 7 {
        proof {
            reveal_strlit("7");
        }
        "7"
    } else if d == 8 {
        proof {
            reveal_strlit("8");
        }
        "8"
    } else {
        proof {
            reveal_strlit("9");
        }
        "9"
    }
}

/// The digits of `n` in base `base`.
fn render_base(n: u64, base: u64) -> (s: String)
    requires
        2 <= base <= 10,
    ensures
        s@ == digits(n as nat, base as nat),
    decreases n,
{
    if n < base {
        String::from_str(digit_text(n))
    } else {
        assert(n / base < n) by (nonlinear_arith)
            requires
                n >= base,
                base >= 2,
        ;
        let mut s = render_base(n / base, base);
        s.append(digit_text(n % base));
        s
    }
}

/// The decimal text of `n`.
pub fn u64_text(n: u64) -> (s: String)
    ensures
        s@ == digits(n as nat, 10),
{
    render_base(n, 10)
}

/// The octal text of `n`, as `{:o}` writes it.
pub fn octal_text(n: u32) -> (s: String)
    ensures
        s@ == digits(n as nat, 8),
{
    render_base(n as u64, 8)
}

/// The decimal text of `n`, as `{}` writes it.
pub fn i64_text(n: i64) -> (s: String)
    ensures
        s@ == int_text(n as int),
{
    if n < 0 {
        let m: u64 = (-(n + 1)) as u64 + 1;
        let mut s = String::from_str("-");
        let d = u64_text(m);
        s.append(d.as_str());
        s
    } else {
        u64_text(n as u64)
    }
}

/// Whether `c` is a decimal digit.
pub open spec fn is_digit(c: char) -> bool {
    '0' <= c && c <= '9'
}

/// The value of the decimal digits `s`.
pub open spec fn digits_value(s: Seq<char>) -> nat
    decreases s.len(),
{
    if s.len() == 0 {
        0
    } else {
        digits_value(s.drop_last()) * 10 + (s.last() as int - 48) as nat
    }
}

/// The digits of an unsigned decimal text: the text after an optional `+`.
pub open spec fn unsigned_body(s: Seq<char>) -> Seq<char> {
    if s.len() > 0 && s[0] == '+' {
        s.skip(1)
    } else {
        s
    }
}

/// What `str::parse::<u64>` gives for `s`: the value of a non-empty run of
/// decimal digits after an optional `+`, when it fits in 64 bits.
pub open spec fn parse_u64(s: Seq<char>) -> Option<u64> {
    let body = unsigned_body(s);
    if body.len() > 0 && (forall|i: int| 0 <= i < body.len() ==> is_digit(#[trigger] body[i]))
        && digits_value(body) <= u64::MAX {
        Some(digits_value(body) as u64)
    } else {
        None
    }
}

proof fn lemma_digits_value_grows(s: Seq<char>, k: int)
    requires
        0 <= k <= s.len(),
        forall|i: int| 0 <= i < s.len() ==> is_digit(#[trigger] s[i]),
    ensures
        digits_value(s.take(k)) <= digits_value(s),
    decreases s.len(),
{
    if k < s.len() {
        assert(s.drop_last().take(k) =~= s.take(k));
        lemma_digits_value_grows(s.drop_last(), k);
        assert(forall|i: int| 0 <= i < s.drop_last().len() ==> is_digit(#[trigger] s.drop_last()[i]));
    } else {
        assert(s.take(k) =~= s);
    }
}

/// The value of the unsigned decimal text `s`, as `str::parse::<u64>` reads it.
pub fn parse_u64_text(s: &str) -> (r: Option<u64>)
    ensures
        r == parse_u64(s@),
{
    let cs = chars_of(s);
    let ghost body = unsigned_body(s@);
    let start: usize = if cs.len() > 0 && cs[0] == '+' {
        1
    } else {
        0
    };
    assert(body =~= s@.skip(start as int));
    if start >= cs.len() {
        return None;
    }
    let mut v: u64 = 0;
    let mut i = start;
    assert(body.take(0) =~= Seq::<char>::empty());
    while i < cs.len()
        invariant
            cs@ == s@,
            body == s@.skip(start as int),
            body == unsigned_body(s@),
            start <= i <= cs.len(),
            forall|j: int| 0 <= j < i - start ==> is_digit(#[trigger] body[j]),
            v as nat == digits_value(body.take(i - start)),
        decreases cs.len() - i,
    {
        let c = cs[i];
        if !('0' <= c && c <= '9') {
            assert(!is_digit(body[i - start]));
            return None;
        }
        let d: u64 = (c as u32 - 48) as u64;
        assert(body.take(i + 1 - start).drop_last() =~= body.take(i - start));
        assert(body.take(i + 1 - start).last() == c);
        match v.checked_mul(10) {
            None => {
                proof {
                    assert(forall|j: int| 0 <= j < i + 1 - start ==> is_digit(#[trigger] body.take(i + 1 - start)[j]));
                }
                assert(digits_value(body.take(i + 1 - start)) > u64::MAX);
                proof {
                    if forall|j: int| 0 <= j < body.len() ==> is_digit(#[trigger] body[j]) {
                        lemma_digits_value_grows(body, i + 1 - start);
                    }
                }
                return None;
            },
            Some(t) => match t.checked_add(d) {
                None => {
                    assert(digits_value(body.take(i + 1 - start)) > u64::MAX);
                    proof {
                        if forall|j: int| 0 <= j < body.len() ==> is_digit(#[trigger] body[j]) {
                            lemma_digits_value_grows(body, i + 1 - start);
                        }
                    }
                        return None;
                },
                Some(w) => {
                    v = w;
                },
            },
        }
        i = i + 1;
    }
    assert(body.take(cs.len() - start) =~= body);
    Some(v)
}

} // verus!

verus! {

proof fn lemma_decimal_digits(n: nat)
    ensures
        digits(n, 10).len() > 0,
        forall|i: int| 0 <= i < digits(n, 10).len() ==> is_digit(#[trigger] digits(n, 10)[i]),
        digits_value(digits(n, 10)) == n,
    decreases n,
{
    if n >= 10 {
        lemma_decimal_digits(n / 10);
        let s = digits(n / 10, 10);
        let c = digit_char(n % 10);
        assert(digits(n, 10) == s.push(c));
        assert(s.push(c).drop_last() =~= s);
        assert(c as int == 48 + n % 10);
        assert(s.push(c).last() == c);
        assert(n == (n / 10) * 10 + n % 10);
        assert(digits_value(s.push(c)) == digits_value(s) * 10 + (c as int - 48) as nat);
        assert forall|i: int| 0 <= i < s.push(c).len() implies is_digit(#[trigger] s.push(c)[i]) by {
            if i < s.len() {
                assert(s.push(c)[i] == s[i]);
            }
        }
    } else {
        let c = digit_char(n);
        assert(c as int == 48 + n);
        assert(seq![c].drop_last() =~= Seq::<char>::empty());
        assert(seq![c].last() == c);
        assert(digits_value(seq![c]) == digits_value(Seq::<char>::empty()) * 10 + (c as int
            - 48) as nat);
    }
}

/// The digits of a number in a base from two to ten are decimal digit
/// characters.
pub proof fn lemma_digits_are_digits(n: nat, base: nat)
    requires
        2 <= base <= 10,
    ensures
        forall|i: int| 0 <= i < digits(n, base).len() ==> is_digit(#[trigger] digits(n, base)[i]),
    decreases n,
{
    if n >= base {
        vstd::arithmetic::div_mod::lemma_div_decreases(n as int, base as int);
        lemma_digits_are_digits(n / base, base);
        let s = digits(n / base, base);
        let c = digit_char(n % base);
        assert(digits(n, base) == s.push(c));
        assert(c as int == 48 + n % base);
        assert forall|i: int| 0 <= i < s.push(c).len() implies is_digit(#[trigger] s.push(c)[i]) by {
            if i < s.len() {
                assert(s.push(c)[i] == s[i]);
            }
        }
    } else {
        assert(digit_char(n) as int == 48 + n);
    }
}

/// Reading back the decimal text of a number gives the number.
pub proof fn decimal_round_trip(n: u64)
    ensures
        parse_u64(digits(n as nat, 10)) == Some(n),
{
    lemma_decimal_digits(n as nat);
    let s = digits(n as nat, 10);
    assert(s[0] != '+') by {
        assert(is_digit(s[0]));
    }
    assert(unsigned_body(s) == s);
}

/// Different numbers have different decimal texts.
pub proof fn decimal_injective(a: nat, b: nat)
    requires
        digits(a, 10) == digits(b, 10),
    ensures
        a == b,
{
    lemma_decimal_digits(a);
    lemma_decimal_digits(b);
}

} // verus!
