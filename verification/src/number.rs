//! Whole numbers in text: writing them in decimal and hexadecimal, and reading them back.

use vstd::prelude::*;

use crate::text::chars_of;

verus! {

/// The character of a digit below sixteen.
pub open spec fn digit_char(d: int) -> char {
    if d < 10 {
        ('0' as int + d) as char
    } else {
        ('a' as int + (d - 10)) as char
    }
}

/// A number written in a base, without leading zeros.
pub open spec fn digits(n: nat, base: nat) -> Seq<char>
    decreases n,
{
    if n < base || base < 2 {
        seq![digit_char(n as int)]
    } else {
        proof {
            vstd::arithmetic::div_mod::lemma_div_decreases(n as int, base as int);
        }
        digits(n / base, base).push(digit_char((n % base) as int))
    }
}

/// A number written in decimal.
pub open spec fn decimal_text(n: nat) -> Seq<char> {
    digits(n, 10)
}

/// A number written in hexadecimal, with small letters.
pub open spec fn hex_text(n: nat) -> Seq<char> {
    digits(n, 16)
}

fn write_digits(n: u64, base: u64) -> (s: String)
    requires
        2 <= base <= 16,
    ensures
        s@ == digits(n as nat, base as nat),
    decreases n,
{
    let d: u8 = (n % base) as u8;
    let c: char = if d < 10 {
        (48 + d) as char
    } else {
        (97 + (d - 10)) as char
    };
    if n < base {
        let mut s = String::new();
        s.push(c);
        proof {
            vstd::arithmetic::div_mod::lemma_small_mod(n as nat, base as nat);
            assert(s@ =~= seq![digit_char(n as int)]);
        }
        s
    } else {
        proof {
            vstd::arithmetic::div_mod::lemma_div_decreases(n as int, base as int);
        }
        let mut s = write_digits(n / base, base);
        s.push(c);
        s
    }
}

/// A number written in decimal.
pub fn decimal(n: u64) -> (s: String)
    ensures
        s@ == decimal_text(n as nat),
{
    write_digits(n, 10)
}

/// A number written in hexadecimal, with small letters.
pub fn hex(n: u64) -> (s: String)
    ensures
        s@ == hex_text(n as nat),
{
    write_digits(n, 16)
}

/// The value of a text of decimal digits.
pub open spec fn digits_value(s: Seq<char>) -> int
    decreases s.len(),
{
    if s.len() == 0 {
        0
    } else {
        digits_value(s.drop_last()) * 10 + (s.last() as int - '0' as int)
    }
}

/// Whether a text is one or more decimal digits.
pub open spec fn all_digits(s: Seq<char>) -> bool {
    s.len() > 0 && forall|i: int| 0 <= i < s.len() ==> '0' <= #[trigger] s[i] <= '9'
}

/// The number that decimal digits stand for, after an optional plus sign.
pub open spec fn unsigned_value(s: Seq<char>) -> Option<int> {
    if s.len() > 0 && s[0] == '+' {
        if all_digits(s.drop_first()) {
            Some(digits_value(s.drop_first()))
        } else {
            None
        }
    } else if all_digits(s) {
        Some(digits_value(s))
    } else {
        None
    }
}

/// The number that decimal digits stand for, after an optional sign.
pub open spec fn signed_value(s: Seq<char>) -> Option<int> {
    if s.len() > 0 && s[0] == '-' {
        if all_digits(s.drop_first()) {
            Some(-digits_value(s.drop_first()))
        } else {
            None
        }
    } else {
        unsigned_value(s)
    }
}

proof fn lemma_value_grows(s: Seq<char>, k: int)
    requires
        0 <= k <= s.len(),
        forall|i: int| 0 <= i < s.len() ==> '0' <= #[trigger] s[i] <= '9',
    ensures
        0 <= digits_value(s.take(k)) <= digits_value(s),
    decreases s.len(),
{
    if k == s.len() {
        assert(s.take(k) =~= s);
        if s.len() > 0 {
            assert('0' <= s[s.len() - 1] <= '9');
            lemma_value_grows(s.drop_last(), k - 1);
        }
    } else {
        assert('0' <= s[s.len() - 1] <= '9');
        lemma_value_grows(s.drop_last(), k);
        assert(s.drop_last().take(k) =~= s.take(k));
    }
}

/// The value of the digits from `from` on, where they are digits alone and it is at most `limit`.
fn read_digits(v: &Vec<char>, from: usize, limit: u64) -> (r: Option<u64>)
    requires
        from <= v@.len(),
        limit <= 0xFFFF_FFFF,
    ensures
        match r {
            Some(n) => all_digits(v@.skip(from as int)) && n == digits_value(v@.skip(from as int))
                && n <= limit,
            None => !all_digits(v@.skip(from as int)) || digits_value(v@.skip(from as int)) > limit,
        },
{
    let ghost s = v@.skip(from as int);
    if from == v.len() {
        return None;
    }
    let mut i: usize = from;
    let mut n: u64 = 0;
    proof {
        assert(s.take(0) =~= Seq::<char>::empty());
    }
    while i < v.len()
        invariant
            from <= i <= v@.len(),
            from < v@.len(),
            s == v@.skip(from as int),
            limit <= 0xFFFF_FFFF,
            n <= limit,
            n == digits_value(s.take(i - from)),
            forall|j: int| 0 <= j < i - from ==> '0' <= #[trigger] s[j] <= '9',
        decreases v@.len() - i,
    {
        let c: char = v[i];
        proof {
            assert(s[i - from] == c);
            assert(s.take(i + 1 - from).drop_last() =~= s.take(i - from));
        }
        if c < '0' || c > '9' {
            return None;
        }
        n = n * 10 + (c as u32 - 48) as u64;
        if n > limit {
            proof {
                if all_digits(s) {
                    lemma_value_grows(s, i + 1 - from);
                }
            }
            return None;
        }
        i += 1;
    }
    proof {
        assert(s.take(i - from) =~= s);
    }
    Some(n)
}

/// Reads a number from 0 to 255: decimal digits after an optional plus sign.
pub fn parse_u8(s: &str) -> (r: Option<u8>)
    ensures
        match r {
            Some(n) => unsigned_value(s@) == Some(n as int),
            None => match unsigned_value(s@) {
                Some(n) => n > 255,
                None => true,
            },
        },
{
    let v = chars_of(s);
    let from: usize = if v.len() > 0 && v[0] == '+' {
        1
    } else {
        0
    };
    proof {
        assert(s@.skip(1) =~= s@.drop_first()) by {
            if s@.len() == 0 {
                assert(s@.skip(1) =~= s@.drop_first());
            }
        }
        assert(s@.skip(0) =~= s@);
    }
    match read_digits(&v, from, 255) {
        Some(n) => Some(n as u8),
        None => None,
    }
}

/// Reads a 32-bit number: decimal digits after an optional sign.
pub fn parse_i32(s: &str) -> (r: Option<i32>)
    ensures
        match r {
            Some(n) => signed_value(s@) == Some(n as int),
            None => match signed_value(s@) {
                Some(n) => n < i32::MIN || n > i32::MAX,
                None => true,
            },
        },
{
    let v = chars_of(s);
    proof {
        assert(s@.skip(0) =~= s@);
    }
    if v.len() > 0 && (v[0] == '+' || v[0] == '-') {
        proof {
            assert(s@.skip(1) =~= s@.drop_first());
        }
        if v[0] == '-' {
            return match read_digits(&v, 1, 0x8000_0000) {
                Some(n) => Some((0 - n as i64) as i32),
                None => None,
            };
        }
        return match read_digits(&v, 1, 0x7FFF_FFFF) {
            Some(n) => Some(n as i32),
            None => None,
        };
    }
    match read_digits(&v, 0, 0x7FFF_FFFF) {
        Some(n) => Some(n as i32),
        None => None,
    }
}

/// Reading a number written in decimal gives the number back.
pub proof fn law_decimal_reads_back(n: nat)
    ensures
        all_digits(decimal_text(n)),
        digits_value(decimal_text(n)) == n,
        unsigned_value(decimal_text(n)) == Some(n as int),
        signed_value(decimal_text(n)) == Some(n as int),
    decreases n,
{
    let s = decimal_text(n);
    if n < 10 {
        assert(s == seq![digit_char(n as int)]);
        assert(s.drop_last() =~= Seq::<char>::empty());
        assert(digits_value(s.drop_last()) == 0);
        assert(s.last() as int == '0' as int + n);
    } else {
        law_decimal_reads_back(n / 10);
        assert(s.drop_last() =~= decimal_text(n / 10));
        assert(s.last() as int == '0' as int + (n % 10));
        assert forall|i: int| 0 <= i < s.len() implies '0' <= #[trigger] s[i] <= '9' by {
            if i < s.len() - 1 {
                assert(s[i] == decimal_text(n / 10)[i]);
            }
        }
    }
    assert('0' <= s[0] <= '9');
}

/// Two numbers written alike in hexadecimal are the same number.
pub proof fn law_hex_is_injective(a: nat, b: nat)
    requires
        hex_text(a) == hex_text(b),
    ensures
        a == b,
    decreases a,
{
    let s = hex_text(a);
    if a < 16 && b < 16 {
        assert(s[0] == digit_char(a as int));
        assert(s[0] == digit_char(b as int));
    } else if a >= 16 && b >= 16 {
        assert(s.drop_last() =~= hex_text(a / 16));
        assert(s.drop_last() =~= hex_text(b / 16));
        law_hex_is_injective(a / 16, b / 16);
        assert(s.last() == digit_char((a % 16) as int));
        assert(s.last() == digit_char((b % 16) as int));
    } else {
        let big = if a >= 16 {
            a
        } else {
            b
        };
        assert(digits(big / 16, 16).len() > 0);
        assert(s.len() == 1);
        assert(hex_text(big) == digits(big / 16, 16).push(digit_char((big % 16) as int)));
    }
}

/// Numbers are written without leading zeros, digit after digit: the last is the remainder by the base
/// and the ones before it write the rest.
pub proof fn law_digits_are_written_in_order(n: nat)
    ensures
        n < 10 ==> decimal_text(n) == seq![(('0' as int) + n) as char],
        n >= 10 ==> decimal_text(n) == decimal_text(n / 10) + decimal_text(n % 10),
        n < 10 ==> hex_text(n) == decimal_text(n),
        10 <= n < 16 ==> hex_text(n) == seq![(('a' as int) + n - 10) as char],
        n >= 16 ==> hex_text(n) == hex_text(n / 16) + hex_text(n % 16),
{
    assert(n >= 10 ==> decimal_text(n) =~= decimal_text(n / 10) + decimal_text(n % 10));
    assert(n >= 16 ==> hex_text(n) =~= hex_text(n / 16) + hex_text(n % 16));
}

/// A number is read digit after digit, after one sign at most; what holds anything else is no number.
pub proof fn law_numbers_are_read(s: Seq<char>, c: char)
    ensures
        '0' <= c <= '9' ==> digits_value(s.push(c)) == 10 * digits_value(s) + (c as int - '0' as int),
        digits_value(Seq::empty()) == 0,
        (s.len() > 0 && forall|i: int| 0 <= i < s.len() ==> '0' <= #[trigger] s[i] <= '9') ==> {
            &&& unsigned_value(s) == Some(digits_value(s))
            &&& signed_value(s) == Some(digits_value(s))
            &&& unsigned_value(seq!['+'] + s) == Some(digits_value(s))
            &&& signed_value(seq!['+'] + s) == Some(digits_value(s))
            &&& signed_value(seq!['-'] + s) == Some(-digits_value(s))
            &&& unsigned_value(seq!['-'] + s) is None
        },
        unsigned_value(s) is Some ==> s.len() > 0 && (s[0] == '+' || '0' <= s[0] <= '9')
            && '0' <= s.last() <= '9' && forall|i: int| 1 <= i < s.len() ==> '0' <= #[trigger] s[i] <= '9',
        signed_value(s) is Some ==> s.len() > 0 && (s[0] == '+' || s[0] == '-' || '0' <= s[0] <= '9')
            && '0' <= s.last() <= '9' && forall|i: int| 1 <= i < s.len() ==> '0' <= #[trigger] s[i] <= '9',
{
    assert(s.push(c).drop_last() =~= s);
    assert((seq!['+'] + s).drop_first() =~= s);
    assert((seq!['-'] + s).drop_first() =~= s);
    if s.len() > 0 {
        let r = s.drop_first();
        assert forall|i: int| 1 <= i < s.len() implies #[trigger] s[i] == r[i - 1] by {}
        if s.len() > 1 {
            assert(s.last() == r.last());
        }
    }
    assert((seq!['-'] + s)[0] == '-');
}

} // verus!
