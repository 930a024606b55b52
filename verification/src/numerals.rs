//! Numbers as text: reading what std's integer parsers accept, writing what
//! its formatting traits write.

use crate::text::{chars, slice};
use vstd::prelude::*;

verus! {

/// The value of `c` as a digit, if it is a digit in that radix.
pub open spec fn digit(c: char, radix: int) -> Option<nat> {
    let value = if '0' <= c <= '9' {
        c as int - '0' as int
    } else if 'a' <= c <= 'f' {
        c as int - 'a' as int + 10
    } else if 'A' <= c <= 'F' {
        c as int - 'A' as int + 10
    } else {
        radix
    };
    if value < radix {
        Some(value as nat)
    } else {
        None
    }
}

/// The number that a row of digits stands for; the empty row stands for zero.
pub open spec fn number(s: Seq<char>, radix: int) -> Option<nat>
    decreases s.len(),
{
    if s.len() == 0 {
        Some(0)
    } else {
        match (number(s.drop_last(), radix), digit(s.last(), radix)) {
            (Some(n), Some(d)) => Some((n * radix + d) as nat),
            _ => None,
        }
    }
}

/// The number that a non-empty row of digits stands for, if it is at most `max`.
pub open spec fn bounded_number(s: Seq<char>, radix: int, max: int) -> Option<nat> {
    match number(s, radix) {
        Some(n) => if s.len() > 0 && n <= max {
            Some(n)
        } else {
            None
        },
        None => None,
    }
}

/// What `from_str_radix` of an unsigned type with that maximum reads from `s`:
/// digits, behind one optional plus sign.
pub open spec fn unsigned(s: Seq<char>, radix: int, max: int) -> Option<nat> {
    if s.len() > 0 && s[0] == '+' {
        bounded_number(s.drop_first(), radix, max)
    } else {
        bounded_number(s, radix, max)
    }
}

/// What `i32::from_str` reads from `s`: decimal digits behind one optional sign.
pub open spec fn signed_i32(s: Seq<char>) -> Option<int> {
    if s.len() > 0 && s[0] == '-' {
        match bounded_number(s.drop_first(), 10, 0x8000_0000) {
            Some(n) => Some(-(n as int)),
            None => None,
        }
    } else {
        match unsigned(s, 10, 0x7fff_ffff) {
            Some(n) => Some(n as int),
            None => None,
        }
    }
}

/// A prefix of a row of digits stands for no larger number than the whole.
pub proof fn lemma_number_prefix(s: Seq<char>, radix: int, n: int)
    requires
        0 <= n <= s.len(),
        radix >= 2,
        number(s, radix) is Some,
    ensures
        number(s.take(n), radix) is Some,
        number(s.take(n), radix)->0 <= number(s, radix)->0,
    decreases s.len() - n,
{
    if n < s.len() {
        assert(s.drop_last().take(n) == s.take(n));
        lemma_number_prefix(s.drop_last(), radix, n);
        let m = number(s.drop_last(), radix)->0;
        assert(m * radix >= m) by (nonlinear_arith)
            requires
                radix >= 2,
                m >= 0,
        ;
    } else {
        assert(s.take(n) == s);
    }
}

fn digit_value(c: char, radix: u32) -> (r: Option<u32>)
    requires
        radix <= 16,
    ensures
        match r {
            Some(d) => digit(c, radix as int) == Some(d as nat),
            None => digit(c, radix as int) is None,
        },
{
    let value: u32 = if '0' <= c && c <= '9' {
        c as u32 - '0' as u32
    } else if 'a' <= c && c <= 'f' {
        c as u32 - 'a' as u32 + 10
    } else if 'A' <= c && c <= 'F' {
        c as u32 - 'A' as u32 + 10
    } else {
        radix
    };
    if value < radix {
        Some(value)
    } else {
        None
    }
}

/// The number written by `v[from..to]`, if those are digits (at least one) and
/// the number is at most `max`.
pub fn read_number(v: &Vec<char>, from: usize, to: usize, radix: u32, max: u64) -> (r: Option<u64>)
    requires
        from <= to <= v.len(),
        radix == 10 || radix == 16,
    ensures
        match r {
            Some(n) => bounded_number(v@.subrange(from as int, to as int), radix as int, max as int)
                == Some(n as nat),
            None => bounded_number(v@.subrange(from as int, to as int), radix as int, max as int) is None,
        },
{
    if from >= to {
        return None;
    }
    let ghost s = v@.subrange(from as int, to as int);
    let mut n: u64 = 0;
    let mut i: usize = from;
    assert(s.take(0) == Seq::<char>::empty());
    while i < to
        invariant
            from <= i <= to <= v.len(),
            radix == 10 || radix == 16,
            s == v@.subrange(from as int, to as int),
            number(s.take(i - from), radix as int) == Some(n as nat),
            n <= max,
        decreases to - i,
    {
        let k: Ghost<int> = Ghost(i - from);
        assert(s.take(k@ + 1).drop_last() == s.take(k@));
        assert(s.take(k@ + 1).last() == v@[i as int]);
        match digit_value(v[i], radix) {
            None => {
                proof {
                    if number(s, radix as int) is Some {
                        lemma_number_prefix(s, radix as int, k@ + 1);
                    }
                }
                return None;
            },
            Some(d) => {
                let wide: u128 = n as u128 * radix as u128 + d as u128;
                if wide > max as u128 {
                    proof {
                        if number(s, radix as int) is Some {
                            lemma_number_prefix(s, radix as int, k@ + 1);
                        }
                    }
                    return None;
                }
                n = wide as u64;
            },
        }
        i = i + 1;
    }
    assert(s.take(s.len() as int) == s);
    Some(n)
}

/// The number that `s` writes in that radix, as `from_str_radix` of an unsigned
/// type with that maximum reads it.
pub fn parse_unsigned(s: &str, radix: u32, max: u64) -> (r: Option<u64>)
    requires
        radix == 10 || radix == 16,
    ensures
        match r {
            Some(n) => unsigned(s@, radix as int, max as int) == Some(n as nat),
            None => unsigned(s@, radix as int, max as int) is None,
        },
{
    let v: Vec<char> = chars(s);
    if v.len() > 0 && v[0] == '+' {
        assert(v@.subrange(1, v.len() as int) == s@.drop_first());
        read_number(&v, 1, v.len(), radix, max)
    } else {
        assert(v@.subrange(0, v.len() as int) == s@);
        read_number(&v, 0, v.len(), radix, max)
    }
}

/// The number that `s` writes, as `i32::from_str` reads it.
pub fn parse_i32(s: &str) -> (r: Option<i32>)
    ensures
        match r {
            Some(n) => signed_i32(s@) == Some(n as int),
            None => signed_i32(s@) is None,
        },
{
    let v: Vec<char> = chars(s);
    if v.len() > 0 && v[0] == '-' {
        assert(v@.subrange(1, v.len() as int) == s@.drop_first());
        match read_number(&v, 1, v.len(), 10, 0x8000_0000) {
            Some(n) => Some((-(n as i64)) as i32),
            None => None,
        }
    } else {
        match parse_unsigned(s, 10, 0x7fff_ffff) {
            Some(n) => Some(n as i32),
            None => None,
        }
    }
}

/// The digit with value `d`; lower case beyond nine.
pub open spec fn digit_char(d: nat) -> char {
    if d < 10 {
        ('0' as int + d) as char
    } else {
        ('a' as int + (d - 10)) as char
    }
}

/// `n` in decimal, as `Display` writes an unsigned number.
pub open spec fn decimal(n: nat) -> Seq<char>
    decreases n,
{
    if n < 10 {
        seq![digit_char(n)]
    } else {
        decimal(n / 10).push(digit_char(n % 10))
    }
}

/// `n` in decimal with its sign, as `Display` writes a signed number.
pub open spec fn signed_decimal(n: int) -> Seq<char> {
    if n < 0 {
        seq!['-'] + decimal((-n) as nat)
    } else {
        decimal(n as nat)
    }
}

/// `n` in lower-case hexadecimal, as `LowerHex` writes it.
pub open spec fn hex(n: nat) -> Seq<char>
    decreases n,
{
    if n < 16 {
        seq![digit_char(n)]
    } else {
        hex(n / 16).push(digit_char(n % 16))
    }
}

/// `s` behind as many zeros as it takes to fill `width` places.
pub open spec fn zero_padded(s: Seq<char>, width: nat) -> Seq<char> {
    if s.len() < width {
        Seq::new((width - s.len()) as nat, |i: int| '0') + s
    } else {
        s
    }
}

/// A digit character reads back as the digit it was made of.
pub proof fn lemma_digit_char(d: nat, radix: int)
    requires
        d < radix <= 16,
    ensures
        digit(digit_char(d), radix) == Some(d),
{
}

/// What `decimal` writes is a row of digits that reads back as the number, with
/// no zero in front but for zero itself.
pub proof fn lemma_decimal_reads_back(n: nat)
    ensures
        number(decimal(n), 10) == Some(n),
        decimal(n).len() >= 1,
        forall|i: int| 0 <= i < decimal(n).len() ==> '0' <= #[trigger] decimal(n)[i] <= '9',
        n > 0 ==> decimal(n)[0] != '0',
        n < 10 ==> decimal(n).len() == 1,
    decreases n,
{
    if n < 10 {
        lemma_digit_char(n, 10);
        let s = decimal(n);
        assert(s.drop_last() == Seq::<char>::empty());
        assert(number(s.drop_last(), 10) == Some(0nat));
        assert(s.last() == digit_char(n));
    } else {
        lemma_decimal_reads_back(n / 10);
        lemma_digit_char(n % 10, 10);
        let s = decimal(n);
        assert(s.drop_last() == decimal(n / 10));
        assert(s.last() == digit_char(n % 10));
        assert forall|i: int| 0 <= i < s.len() implies '0' <= #[trigger] s[i] <= '9' by {
            if i < s.len() - 1 {
                assert(s[i] == decimal(n / 10)[i]);
            }
        }
    }
}

/// What `decimal` writes reads back as an unsigned number, where it is not too large.
pub proof fn lemma_decimal_is_unsigned(n: nat, max: int)
    requires
        n <= max,
    ensures
        unsigned(decimal(n), 10, max) == Some(n),
{
    lemma_decimal_reads_back(n);
    assert('0' <= decimal(n)[0] <= '9');
}

/// What `signed_decimal` writes is made of digits behind one optional minus
/// sign, and reads back as the number where that is an `i32`.
pub proof fn lemma_signed_decimal(n: int)
    ensures
        signed_i32(signed_decimal(n)) == (if i32::MIN <= n <= i32::MAX {
            Some(n)
        } else {
            None
        }),
        forall|i: int|
            0 <= i < signed_decimal(n).len() ==> #[trigger] signed_decimal(n)[i] == '-' || '0' <= signed_decimal(n)[i]
                <= '9',
{
    let magnitude: nat = if n < 0 {
        (-n) as nat
    } else {
        n as nat
    };
    lemma_decimal_reads_back(magnitude);
    assert('0' <= decimal(magnitude)[0] <= '9');
    if n < 0 {
        let s = signed_decimal(n);
        assert(s.drop_first() =~= decimal(magnitude));
        assert forall|i: int| 0 <= i < s.len() implies #[trigger] s[i] == '-' || '0' <= s[i] <= '9' by {
            if i > 0 {
                assert(s[i] == decimal(magnitude)[i - 1]);
            }
        }
    }
}

/// What `hex` writes is a row of hexadecimal digits that reads back as the number.
pub proof fn lemma_hex_reads_back(n: nat)
    ensures
        number(hex(n), 16) == Some(n),
        hex(n).len() >= 1,
        forall|i: int| 0 <= i < hex(n).len() ==> '0' <= #[trigger] hex(n)[i] <= '9' || 'a' <= hex(n)[i] <= 'f',
        n < 0x10 ==> hex(n).len() == 1,
        n < 0x100 ==> hex(n).len() <= 2,
        n < 0x1000 ==> hex(n).len() <= 3,
        n < 0x1_0000 ==> hex(n).len() <= 4,
    decreases n,
{
    if n < 16 {
        lemma_digit_char(n, 16);
        let s = hex(n);
        assert(s.drop_last() == Seq::<char>::empty());
        assert(number(s.drop_last(), 16) == Some(0nat));
        assert(s.last() == digit_char(n));
    } else {
        lemma_hex_reads_back(n / 16);
        lemma_digit_char(n % 16, 16);
        let s = hex(n);
        assert(s.drop_last() == hex(n / 16));
        assert(s.last() == digit_char(n % 16));
        assert forall|i: int| 0 <= i < s.len() implies '0' <= #[trigger] s[i] <= '9' || 'a' <= s[i] <= 'f' by {
            if i < s.len() - 1 {
                assert(s[i] == hex(n / 16)[i]);
            }
        }
    }
}

fn to_digit(d: u64) -> (c: char)
    requires
        d < 16,
    ensures
        c == digit_char(d as nat),
{
    if d < 10 {
        ('0' as u8 + d as u8) as char
    } else {
        ('a' as u8 + (d as u8 - 10)) as char
    }
}

/// `n` in decimal.
pub fn format_decimal(n: u64) -> (s: String)
    ensures
        s@ == decimal(n as nat),
    decreases n,
{
    let mut s: String = if n < 10 {
        String::new()
    } else {
        format_decimal(n / 10)
    };
    s.push(to_digit(n % 10));
    assert(s@ == decimal(n as nat));
    s
}

/// `n` in decimal with its sign.
pub fn format_signed(n: i64) -> (s: String)
    ensures
        s@ == signed_decimal(n as int),
{
    if n < 0 {
        let magnitude: u64 = (-(n as i128)) as u64;
        let digits: String = format_decimal(magnitude);
        let mut s: String = String::new();
        s.push('-');
        s.append(digits.as_str());
        assert(s@ == signed_decimal(n as int));
        s
    } else {
        format_decimal(n as u64)
    }
}

/// `n` in lower-case hexadecimal.
pub fn format_hex(n: u64) -> (s: String)
    ensures
        s@ == hex(n as nat),
    decreases n,
{
    let mut s: String = if n < 16 {
        String::new()
    } else {
        format_hex(n / 16)
    };
    s.push(to_digit(n % 16));
    assert(s@ == hex(n as nat));
    s
}

/// `n` in lower-case hexadecimal, with zeros in front up to `width` places.
pub fn format_hex_padded(n: u64, width: usize) -> (s: String)
    ensures
        s@ == zero_padded(hex(n as nat), width as nat),
{
    let digits: String = format_hex(n);
    let places: usize = digits.as_str().unicode_len();
    let mut s: String = String::new();
    let mut i: usize = places;
    while i < width
        invariant
            places <= i,
            i <= width || i == places,
            s@ == Seq::new((i - places) as nat, |k: int| '0'),
        decreases width - i,
    {
        s.push('0');
        assert(s@ == Seq::new((i + 1 - places) as nat, |k: int| '0'));
        i = i + 1;
    }
    s.append(digits.as_str());
    assert(s@ == zero_padded(hex(n as nat), width as nat));
    s
}

/// Whether `c` has the Unicode property `White_Space`.
pub open spec fn white_space(c: char) -> bool {
    let code = c as u32;
    ||| 9 <= code <= 13
    ||| code == 0x20
    ||| code == 0x85
    ||| code == 0xa0
    ||| code == 0x1680
    ||| 0x2000 <= code <= 0x200a
    ||| code == 0x2028
    ||| code == 0x2029
    ||| code == 0x202f
    ||| code == 0x205f
    ||| code == 0x3000
}

/// Whether `c` has the Unicode property `White_Space`, as `char::is_whitespace` says.
pub fn is_white_space(c: char) -> (r: bool)
    ensures
        r == white_space(c),
{
    let code: u32 = c as u32;
    (9 <= code && code <= 13) || code == 0x20 || code == 0x85 || code == 0xa0 || code == 0x1680 || (0x2000
        <= code && code <= 0x200a) || code == 0x2028 || code == 0x2029 || code == 0x202f || code == 0x205f
        || code == 0x3000
}

/// `s` without the white space in front.
pub open spec fn trimmed_start(s: Seq<char>) -> Seq<char>
    decreases s.len(),
{
    if s.len() > 0 && white_space(s[0]) {
        trimmed_start(s.drop_first())
    } else {
        s
    }
}

/// `s` without the white space at the end.
pub open spec fn trimmed_end(s: Seq<char>) -> Seq<char>
    decreases s.len(),
{
    if s.len() > 0 && white_space(s.last()) {
        trimmed_end(s.drop_last())
    } else {
        s
    }
}

/// `s` without the white space at its two ends.
pub open spec fn trimmed(s: Seq<char>) -> Seq<char> {
    trimmed_end(trimmed_start(s))
}

/// A text with no white space at its ends is left as it is.
pub proof fn lemma_trimmed_same(s: Seq<char>)
    requires
        s.len() > 0 ==> !white_space(s[0]) && !white_space(s.last()),
    ensures
        trimmed(s) == s,
{
}

/// Whether all of a text is white space.
pub open spec fn all_white_space(s: Seq<char>) -> bool {
    forall|i: int| 0 <= i < s.len() ==> white_space(#[trigger] s[i])
}

proof fn lemma_trimmed_start_before(before: Seq<char>, s: Seq<char>)
    requires
        all_white_space(before),
    ensures
        trimmed_start(before + s) == trimmed_start(s),
    decreases before.len(),
{
    if before.len() > 0 {
        let rest = before.drop_first();
        assert forall|i: int| 0 <= i < rest.len() implies white_space(#[trigger] rest[i]) by {
            assert(rest[i] == before[i + 1]);
        }
        assert((before + s).drop_first() =~= rest + s);
        lemma_trimmed_start_before(rest, s);
    } else {
        assert(before + s =~= s);
    }
}

proof fn lemma_trimmed_start_after(s: Seq<char>, after: Seq<char>)
    requires
        all_white_space(after),
    ensures
        trimmed_start(s).len() > 0 ==> trimmed_start(s + after) == trimmed_start(s) + after,
        trimmed_start(s).len() == 0 ==> trimmed_start(s + after).len() == 0,
    decreases s.len(),
{
    if s.len() == 0 {
        assert(s + after =~= after + Seq::<char>::empty());
        lemma_trimmed_start_before(after, Seq::empty());
    } else if white_space(s[0]) {
        assert((s + after).drop_first() =~= s.drop_first() + after);
        lemma_trimmed_start_after(s.drop_first(), after);
    }
}

proof fn lemma_trimmed_end_after(s: Seq<char>, after: Seq<char>)
    requires
        all_white_space(after),
    ensures
        trimmed_end(s + after) == trimmed_end(s),
    decreases after.len(),
{
    if after.len() > 0 {
        let rest = after.drop_last();
        assert forall|i: int| 0 <= i < rest.len() implies white_space(#[trigger] rest[i]) by {
            assert(rest[i] == after[i]);
        }
        assert((s + after).drop_last() =~= s + rest);
        assert((s + after).last() == after.last());
        lemma_trimmed_end_after(s, rest);
    } else {
        assert(s + after =~= s);
    }
}

/// White space around a text does not count.
pub proof fn lemma_trimmed_around(before: Seq<char>, s: Seq<char>, after: Seq<char>)
    requires
        all_white_space(before),
        all_white_space(after),
    ensures
        trimmed(before + s + after) == trimmed(s),
{
    assert(before + s + after =~= before + (s + after));
    lemma_trimmed_start_before(before, s + after);
    lemma_trimmed_start_after(s, after);
    if trimmed_start(s).len() > 0 {
        lemma_trimmed_end_after(trimmed_start(s), after);
    } else {
        assert(trimmed_start(s) =~= trimmed_start(s + after));
    }
}

/// `s` without the white space at its two ends, as `str::trim` gives it.
pub fn trim(s: &str) -> (r: String)
    ensures
        r@ == trimmed(s@),
{
    let v: Vec<char> = chars(s);
    let mut from: usize = 0;
    assert(v@.skip(0) == v@);
    while from < v.len() && is_white_space(v[from])
        invariant
            from <= v.len(),
            trimmed_start(v@.skip(from as int)) == trimmed_start(v@),
        decreases v.len() - from,
    {
        assert(v@.skip(from as int).drop_first() == v@.skip(from + 1));
        from = from + 1;
    }
    let mut to: usize = v.len();
    assert(v@.subrange(from as int, to as int) == v@.skip(from as int));
    while to > from && is_white_space(v[to - 1])
        invariant
            from <= to <= v.len(),
            trimmed_end(v@.subrange(from as int, to as int)) == trimmed_end(v@.skip(from as int)),
        decreases to,
    {
        assert(v@.subrange(from as int, to as int).drop_last() == v@.subrange(from as int, to - 1));
        to = to - 1;
    }
    slice(&v, from, to)
}

/// `c` in lower case if it is an ASCII letter, else `c`.
pub open spec fn ascii_lower_char(c: char) -> char {
    if 'A' <= c <= 'Z' {
        (c as int + 32) as char
    } else {
        c
    }
}

/// `s` with its ASCII letters in lower case.
pub open spec fn ascii_lower(s: Seq<char>) -> Seq<char> {
    s.map_values(|c: char| ascii_lower_char(c))
}

proof fn lemma_lower_trimmed_start(s: Seq<char>)
    ensures
        trimmed_start(ascii_lower(s)) == ascii_lower(trimmed_start(s)),
    decreases s.len(),
{
    if s.len() > 0 {
        assert(ascii_lower(s)[0] == ascii_lower_char(s[0]));
        if white_space(s[0]) {
            assert(ascii_lower(s).drop_first() =~= ascii_lower(s.drop_first()));
            lemma_lower_trimmed_start(s.drop_first());
        }
    }
}

proof fn lemma_lower_trimmed_end(s: Seq<char>)
    ensures
        trimmed_end(ascii_lower(s)) == ascii_lower(trimmed_end(s)),
    decreases s.len(),
{
    if s.len() > 0 {
        assert(ascii_lower(s).last() == ascii_lower_char(s.last()));
        if white_space(s.last()) {
            assert(ascii_lower(s).drop_last() =~= ascii_lower(s.drop_last()));
            lemma_lower_trimmed_end(s.drop_last());
        }
    }
}

/// It makes no difference whether a text is put in lower case before or after
/// the white space around it is taken away.
pub proof fn lemma_lower_trimmed(s: Seq<char>)
    ensures
        trimmed(ascii_lower(s)) == ascii_lower(trimmed(s)),
{
    lemma_lower_trimmed_start(s);
    lemma_lower_trimmed_end(trimmed_start(s));
}

/// `s` with its ASCII letters in lower case, as `str::to_ascii_lowercase` gives it.
pub fn to_ascii_lowercase(s: &str) -> (r: String)
    ensures
        r@ == ascii_lower(s@),
{
    let v: Vec<char> = chars(s);
    let mut r: String = String::new();
    let mut i: usize = 0;
    while i < v.len()
        invariant
            i <= v.len(),
            r@ == ascii_lower(v@.take(i as int)),
        decreases v.len() - i,
    {
        let c: char = v[i];
        if 'A' <= c && c <= 'Z' {
            r.push((c as u8 + 32) as char);
        } else {
            r.push(c);
        }
        assert(r@ == ascii_lower(v@.take(i + 1)));
        i = i + 1;
    }
    assert(v@.take(v.len() as int) == s@);
    r
}

/// A digit has a value below its radix: the decimal digits that of their place,
/// the letters from `a` to `f` those from ten to fifteen, in either case, and
/// no other character has one.
pub proof fn digits_are_below_their_radix(c: char, radix: int)
    requires
        2 <= radix <= 16,
    ensures
        digit(c, radix) matches Some(d) ==> d < radix,
        digit(c, 10) is Some <==> '0' <= c <= '9',
        digit(c, 16) is Some <==> '0' <= c <= '9' || 'a' <= c <= 'f' || 'A' <= c <= 'F',
        '0' <= c <= '9' && (c as int - '0' as int) < radix ==> digit(c, radix) == Some((c as int - '0' as int) as nat),
        'A' <= c <= 'F' ==> digit(c, radix) == digit((c as int + 32) as char, radix),
        digit('a', 16) == Some(10nat),
        digit('f', 16) == Some(15nat),
{
}

/// A row of digits stands for a number exactly where each is a digit; one more
/// digit behind it makes it as many times larger as the radix says.
pub proof fn each_place_weighs_the_radix_more(s: Seq<char>, c: char, radix: int)
    requires
        2 <= radix <= 16,
    ensures
        number(s, radix) is Some <==> forall|i: int| 0 <= i < s.len() ==> digit(#[trigger] s[i], radix) is Some,
        number(s, radix) is Some && digit(c, radix) is Some ==> number(s.push(c), radix) == Some(
            (number(s, radix)->0 * radix + digit(c, radix)->0) as nat,
        ),
    decreases s.len(),
{
    assert(s.push(c).drop_last() =~= s);
    if s.len() > 0 {
        let rest = s.drop_last();
        each_place_weighs_the_radix_more(rest, s.last(), radix);
        assert forall|i: int| 0 <= i < rest.len() implies rest[i] == s[i] by {}
        if number(s, radix) is Some {
            assert forall|i: int| 0 <= i < s.len() implies digit(#[trigger] s[i], radix) is Some by {
                if i < rest.len() {
                    assert(digit(rest[i], radix) is Some);
                }
            }
        } else if forall|i: int| 0 <= i < s.len() ==> digit(#[trigger] s[i], radix) is Some {
            assert forall|i: int| 0 <= i < rest.len() implies digit(#[trigger] rest[i], radix) is Some by {
                assert(digit(s[i], radix) is Some);
            }
            assert(digit(s[s.len() - 1], radix) is Some);
        }
    }
}

/// A number is read where it is written with at least one digit and is not too
/// large; a plus sign in front does not count, once, and a minus sign makes it
/// the opposite.
pub proof fn signs_stand_in_front(s: Seq<char>, radix: int, max: int)
    requires
        2 <= radix <= 16,
        s.len() > 0 ==> s[0] != '+' && s[0] != '-',
    ensures
        unsigned(s, radix, max) is Some <==> s.len() > 0 && number(s, radix) is Some && number(s, radix)->0 <= max,
        unsigned(s, radix, max) matches Some(n) ==> number(s, radix) == Some(n),
        unsigned(seq!['+'] + s, radix, max) == unsigned(s, radix, max),
        unsigned(seq!['-'] + s, radix, max) is None,
        signed_i32(s) is Some <==> s.len() > 0 && number(s, 10) is Some && number(s, 10)->0 <= i32::MAX,
        signed_i32(s) matches Some(n) ==> n == number(s, 10)->0,
        signed_i32(seq!['+'] + s) == signed_i32(s),
        signed_i32(seq!['-'] + s) is Some <==> s.len() > 0 && number(s, 10) is Some && -(number(s, 10)->0) >= i32::MIN,
        signed_i32(seq!['-'] + s) matches Some(n) ==> n == -(number(s, 10)->0),
{
    let plus = seq!['+'] + s;
    let minus = seq!['-'] + s;
    assert(plus.drop_first() =~= s);
    assert(minus.drop_first() =~= s);
    each_place_weighs_the_radix_more(minus, '0', radix);
    assert(minus[0] == '-');
    assert(digit(minus[0], radix) is None);
}

/// A padded text fills its places with zeros in front, and a text that fills
/// them is left as it is.
pub proof fn padding_fills_with_zeros(s: Seq<char>, width: nat)
    ensures
        zero_padded(s, width).len() == (if s.len() < width {
            width
        } else {
            s.len()
        }),
        s.is_suffix_of(zero_padded(s, width)),
        forall|i: int| 0 <= i < zero_padded(s, width).len() - s.len() ==> #[trigger] zero_padded(s, width)[i] == '0',
{
    let p = zero_padded(s, width);
    assert(p.skip(p.len() - s.len()) =~= s);
}

/// Letters are put in lower case, and nothing else is changed.
pub proof fn only_letters_are_lowered(s: Seq<char>, i: int)
    requires
        0 <= i < s.len(),
    ensures
        ascii_lower(s).len() == s.len(),
        'A' <= s[i] <= 'Z' ==> ascii_lower(s)[i] as int - 'a' as int == s[i] as int - 'A' as int,
        !('A' <= s[i] <= 'Z') ==> ascii_lower(s)[i] == s[i],
        ascii_lower(ascii_lower(s)) == ascii_lower(s),
{
    assert(ascii_lower(ascii_lower(s)) =~= ascii_lower(s));
}

/// What is trimmed off is white space, all of it at the two ends and nothing
/// else: the text is the trimmed one with white space around it.
pub proof fn only_white_space_is_trimmed(s: Seq<char>) -> (at: (Seq<char>, Seq<char>))
    ensures
        s == at.0 + trimmed(s) + at.1,
        all_white_space(at.0),
        all_white_space(at.1),
        trimmed(s).len() > 0 ==> !white_space(trimmed(s)[0]) && !white_space(trimmed(s).last()),
{
    let front = lemma_front(s);
    let t = trimmed_start(s);
    let back = lemma_back(t);
    assert(s =~= front + trimmed(s) + back);
    if trimmed(s).len() > 0 {
        assert(t[0] == trimmed(s)[0]);
    }
    (front, back)
}

proof fn lemma_front(s: Seq<char>) -> (front: Seq<char>)
    ensures
        s == front + trimmed_start(s),
        all_white_space(front),
        trimmed_start(s).len() > 0 ==> !white_space(trimmed_start(s)[0]),
    decreases s.len(),
{
    if s.len() > 0 && white_space(s[0]) {
        let rest = lemma_front(s.drop_first());
        let front = seq![s[0]] + rest;
        let left = trimmed_start(s);
        assert(left == trimmed_start(s.drop_first()));
        assert(s =~= seq![s[0]] + s.drop_first());
        assert(seq![s[0]] + (rest + left) =~= front + left);
        assert forall|i: int| 0 <= i < front.len() implies white_space(#[trigger] front[i]) by {
            if i > 0 {
                assert(front[i] == rest[i - 1]);
            }
        }
        front
    } else {
        assert(s =~= Seq::<char>::empty() + s);
        Seq::empty()
    }
}

proof fn lemma_back(s: Seq<char>) -> (back: Seq<char>)
    ensures
        s == trimmed_end(s) + back,
        all_white_space(back),
        trimmed_end(s).len() > 0 ==> !white_space(trimmed_end(s).last()),
    decreases s.len(),
{
    if s.len() > 0 && white_space(s.last()) {
        let rest = lemma_back(s.drop_last());
        let back = rest.push(s.last());
        let left = trimmed_end(s);
        assert(left == trimmed_end(s.drop_last()));
        assert(s =~= s.drop_last().push(s.last()));
        assert((left + rest).push(s.last()) =~= left + back);
        back
    } else {
        assert(s =~= s + Seq::<char>::empty());
        Seq::empty()
    }
}

/// Of the ASCII characters the space and the control characters from the tab to
/// the carriage return are white space, and no others.
pub proof fn ascii_white_space(c: char)
    requires
        (c as int) < 128,
    ensures
        white_space(c) <==> c == ' ' || '\t' <= c <= '\r',
{
}

}
