//! Numbers as text.

use vstd::prelude::*;

use crate::text::chars_of;

verus! {

/// The value of a digit in a base of up to 36.
pub open spec fn digit(c: char, radix: nat) -> Option<nat> {
    let v = if '0' <= c <= '9' {
        Some((c as u32 - 48) as nat)
    } else if 'a' <= c <= 'z' {
        Some((c as u32 - 87) as nat)
    } else if 'A' <= c <= 'Z' {
        Some((c as u32 - 55) as nat)
    } else {
        None
    };
    match v {
        Some(d) => if d < radix {
            Some(d)
        } else {
            None
        },
        None => None,
    }
}

/// The number that a run of digits writes; the empty run writes zero.
pub open spec fn digits(s: Seq<char>, radix: nat) -> Option<nat>
    decreases s.len(),
{
    if s.len() == 0 {
        Some(0)
    } else {
        match (digits(s.drop_last(), radix), digit(s.last(), radix)) {
            (Some(v), Some(d)) => Some(v * radix + d),
            _ => None,
        }
    }
}

/// The unsigned number that `s` writes: an optional plus sign, then at least one
/// digit, for a value of at most `max`.
pub open spec fn number(s: Seq<char>, radix: nat, max: nat) -> Option<nat> {
    let t = if s.len() > 1 && s[0] == '+' {
        s.skip(1)
    } else {
        s
    };
    if t.len() == 0 {
        None
    } else {
        match digits(t, radix) {
            Some(v) => if v <= max {
                Some(v)
            } else {
                None
            },
            None => None,
        }
    }
}

/// A longer run of digits writes no smaller a number.
pub proof fn lemma_digits_grow(s: Seq<char>, radix: nat, i: int)
    requires
        0 <= i <= s.len(),
        radix >= 1,
    ensures
        digits(s.take(i), radix) is None ==> digits(s, radix) is None,
        digits(s, radix) is Some ==> digits(s.take(i), radix) is Some && digits(s, radix)->0
            >= digits(s.take(i), radix)->0,
    decreases s.len() - i,
{
    if i == s.len() {
        assert(s.take(i) =~= s);
    } else {
        lemma_digits_grow(s, radix, i + 1);
        assert(s.take(i + 1).drop_last() =~= s.take(i));
        if digits(s.take(i + 1), radix) is Some {
            let v = digits(s.take(i), radix)->0;
            assert(v * radix >= v) by (nonlinear_arith)
                requires
                    radix >= 1,
                    v >= 0,
            ;
        }
    }
}

fn digit_of(c: char, radix: u64) -> (r: Option<u64>)
    ensures
        match r {
            Some(d) => digit(c, radix as nat) == Some(d as nat),
            None => digit(c, radix as nat) is None,
        },
{
    let v: u64 = if '0' <= c && c <= '9' {
        (c as u64) - 48
    } else if 'a' <= c && c <= 'z' {
        (c as u64) - 87
    } else if 'A' <= c && c <= 'Z' {
        (c as u64) - 55
    } else {
        return None;
    };
    if v < radix {
        Some(v)
    } else {
        None
    }
}

/// [`number`] of a character list.
pub fn number_of(x: &Vec<char>, radix: u64, max: u64) -> (r: Option<u64>)
    requires
        2 <= radix <= 36,
    ensures
        match r {
            Some(v) => number(x@, radix as nat, max as nat) == Some(v as nat),
            None => number(x@, radix as nat, max as nat) is None,
        },
{
    let from: usize = if x.len() > 1 && x[0] == '+' {
        1
    } else {
        0
    };
    let ghost t = x@.skip(from as int);
    assert(from == 0 ==> t =~= x@);
    if from == x.len() {
        return None;
    }
    let mut v: u64 = 0;
    let mut i: usize = from;
    assert(t.take(0) =~= Seq::<char>::empty());
    while i < x.len()
        invariant
            from <= i <= x@.len(),
            t == x@.skip(from as int),
            t.len() > 0,
            number(x@, radix as nat, max as nat) == (match digits(t, radix as nat) {
                Some(w) => if w <= max {
                    Some(w)
                } else {
                    None
                },
                None => None,
            }),
            2 <= radix <= 36,
            v <= max,
            digits(t.take(i - from), radix as nat) == Some(v as nat),
        decreases x.len() - i,
    {
        proof {
            lemma_digits_grow(t, radix as nat, i - from + 1);
            assert(t.take(i - from + 1).drop_last() =~= t.take(i - from));
            assert(t.take(i - from + 1).last() == x@[i as int]);
        }
        match digit_of(x[i], radix) {
            None => {
                return None;
            },
            Some(d) => {
                assert(v * radix <= 0xffff_ffff_ffff_ffff * 36) by (nonlinear_arith)
                    requires
                        v <= 0xffff_ffff_ffff_ffff,
                        radix <= 36,
                ;
                let wide: u128 = (v as u128) * (radix as u128) + (d as u128);
                if wide > max as u128 {
                    return None;
                }
                v = wide as u64;
            },
        }
        i = i + 1;
    }
    assert(t.take(t.len() as int) =~= t);
    Some(v)
}

/// The digit character of a value below sixteen.
pub open spec fn digit_char(d: nat) -> char {
    if d < 10 {
        (48 + d) as char
    } else {
        (87 + d) as char
    }
}

/// `n` written in the given base, without leading zeros.
pub open spec fn numeral(n: nat, radix: nat) -> Seq<char>
    decreases n,
{
    if radix < 2 {
        Seq::empty()
    } else if n < radix {
        seq![digit_char(n)]
    } else {
        proof {
            assert(n / radix < n) by (nonlinear_arith)
                requires
                    n >= radix >= 2,
            ;
        }
        numeral(n / radix, radix).push(digit_char(n % radix))
    }
}

/// `n` in decimal.
pub open spec fn decimal(n: nat) -> Seq<char> {
    numeral(n, 10)
}

/// `n` in lower-case hexadecimal.
pub open spec fn hex(n: nat) -> Seq<char> {
    numeral(n, 16)
}

/// `s` padded on the left with zeros to at least `width` characters.
pub open spec fn zero_padded(s: Seq<char>, width: nat) -> Seq<char> {
    if s.len() >= width {
        s
    } else {
        Seq::new((width - s.len()) as nat, |i: int| '0') + s
    }
}

fn digit_char_of(d: u64) -> (r: char)
    requires
        d < 16,
    ensures
        r == digit_char(d as nat),
{
    if d < 10 {
        (48u8 + d as u8) as char
    } else {
        (87u8 + d as u8) as char
    }
}

/// [`numeral`] of a machine number, as text.
pub fn numeral_of(n: u64, radix: u64) -> (r: String)
    requires
        2 <= radix <= 16,
    ensures
        r@ == numeral(n as nat, radix as nat),
    decreases n,
{
    if n < radix {
        let mut out: String = String::new();
        out.push(digit_char_of(n));
        out
    } else {
        assert(n / radix < n) by (nonlinear_arith)
            requires
                n >= radix >= 2,
        ;
        assert(n % radix < radix) by (nonlinear_arith)
            requires
                radix >= 2,
        ;
        let mut out = numeral_of(n / radix, radix);
        out.push(digit_char_of(n % radix));
        out
    }
}

/// [`zero_padded`] of a text.
pub fn zero_padded_of(s: &str, width: usize) -> (r: String)
    ensures
        r@ == zero_padded(s@, width as nat),
{
    let x = chars_of(s);
    let mut out: String = String::new();
    if x.len() < width {
        let missing: usize = width - x.len();
        let mut i: usize = 0;
        assert(out@ =~= Seq::new(0, |i: int| '0'));
        while i < missing
            invariant
                i <= missing,
                out@ == Seq::new(i as nat, |i: int| '0'),
            decreases missing - i,
        {
            out.push('0');
            i = i + 1;
            assert(out@ =~= Seq::new(i as nat, |i: int| '0'));
        }
    }
    let ghost zeros = out@;
    out.append(s);
    assert(x@.len() >= width ==> zeros + s@ =~= s@);
    out
}

/// A numeral reads back as the number it writes.
pub proof fn lemma_numeral_reads_back(n: nat, radix: nat)
    requires
        2 <= radix <= 16,
    ensures
        digits(numeral(n, radix), radix) == Some(n),
        numeral(n, radix).len() >= 1,
        forall|i: int|
            0 <= i < numeral(n, radix).len() ==> digit(#[trigger] numeral(n, radix)[i], radix)
                is Some,
    decreases n,
{
    reveal_with_fuel(digits, 2);
    if n < radix {
        let s = numeral(n, radix);
        assert(s == seq![digit_char(n)]);
        assert(s.drop_last() =~= Seq::empty());
        assert(digit(digit_char(n), radix) == Some(n));
        assert(0nat * radix == 0) by (nonlinear_arith);
    } else {
        assert(n / radix < n && n % radix < radix && n == (n / radix) * radix + n % radix)
            by (nonlinear_arith)
            requires
                n >= radix >= 2,
        ;
        lemma_numeral_reads_back(n / radix, radix);
        let head = numeral(n / radix, radix);
        let s = numeral(n, radix);
        assert(s == head.push(digit_char(n % radix)));
        assert(s.drop_last() =~= head);
        assert(digit(digit_char(n % radix), radix) == Some(n % radix));
        assert forall|i: int| 0 <= i < s.len() implies digit(#[trigger] s[i], radix) is Some by {
            if i < head.len() {
                assert(s[i] == head[i]);
            }
        }
    }
}

/// `n` in decimal.
pub fn decimal_of(n: u64) -> (r: String)
    ensures
        r@ == decimal(n as nat),
{
    numeral_of(n, 10)
}

/// `n` in lower-case hexadecimal.
pub fn hex_of(n: u64) -> (r: String)
    ensures
        r@ == hex(n as nat),
{
    numeral_of(n, 16)
}

/// What each character counts for: digits by themselves, letters of either case from ten on,
/// and nothing that is not below the radix.
pub proof fn lemma_digit_values(c: char, radix: nat)
    ensures
        '0' <= c <= '9' && c as int - 48 < radix ==> digit(c, radix) == Some((c as int - 48) as nat),
        'a' <= c <= 'z' && c as int - 87 < radix ==> digit(c, radix) == Some((c as int - 87) as nat),
        'A' <= c <= 'Z' && c as int - 55 < radix ==> digit(c, radix) == Some((c as int - 55) as nat),
        digit(c, radix) matches Some(d) ==> d < radix && ('0' <= c <= '9' || 'a' <= c <= 'z' || 'A' <= c
            <= 'Z'),
{
}

/// A number may carry a plus sign; without digits, with anything else in it, or beyond the
/// limit it is none.
pub proof fn lemma_number(s: Seq<char>, radix: nat, max: nat)
    requires
        s.len() > 0,
        s[0] != '+',
    ensures
        number(seq!['+'] + s, radix, max) == number(s, radix, max),
        number(seq!['+'], radix, max) == digits_within(seq!['+'], radix, max),
        number(Seq::empty(), radix, max) is None,
        number(s, radix, max) == digits_within(s, radix, max),
{
    assert((seq!['+'] + s).skip(1) =~= s);
}

/// The number that digits write, where it is within a limit.
pub open spec fn digits_within(s: Seq<char>, radix: nat, max: nat) -> Option<nat> {
    match digits(s, radix) {
        Some(v) if v <= max => Some(v),
        _ => None,
    }
}

/// A digit more counts for its value, and moves those before it up by one place; anything
/// that is no digit spoils the number.
pub proof fn lemma_digit_by_digit(s: Seq<char>, c: char, radix: nat)
    ensures
        digits(s.push(c), radix) == match (digits(s, radix), digit(c, radix)) {
            (Some(v), Some(d)) => Some(v * radix + d),
            _ => None,
        },
        digits(Seq::empty(), radix) == Some(0nat),
{
    assert(s.push(c).drop_last() =~= s);
}

/// Padding adds zeros in front, no more than are needed.
pub proof fn lemma_zero_padded(s: Seq<char>, width: nat)
    ensures
        s.len() >= width ==> zero_padded(s, width) == s,
        s.len() <= width ==> zero_padded(s, width).len() == width,
        zero_padded(s, width).skip(zero_padded(s, width).len() - s.len()) == s,
        forall|i: int|
            0 <= i < zero_padded(s, width).len() - s.len() ==> #[trigger] zero_padded(s, width)[i] == '0',
{
    assert(zero_padded(s, width).skip(zero_padded(s, width).len() - s.len()) =~= s);
}

} // verus!
