//! Text handling the configuration and the router share: trimming,
//! decimal parsing and decimal printing.
use vstd::prelude::*;
use vstd::string::{StrSliceExecFns, StringExecFns};

verus! {

/// Unicode `White_Space`, the characters that `str::trim` removes.
pub open spec fn is_ws(c: char) -> bool {
    let v = c as u32;
    (0x09 <= v <= 0x0d) || v == 0x20 || v == 0x85 || v == 0xa0 || v == 0x1680 || (0x2000 <= v
        <= 0x200a) || v == 0x2028 || v == 0x2029 || v == 0x202f || v == 0x205f || v == 0x3000
}

/// `s` without its leading whitespace.
pub open spec fn trim_start(s: Seq<char>) -> Seq<char>
    decreases s.len(),
{
    if s.len() > 0 && is_ws(s[0]) {
        trim_start(s.drop_first())
    } else {
        s
    }
}

/// `s` without its trailing whitespace.
pub open spec fn trim_end(s: Seq<char>) -> Seq<char>
    decreases s.len(),
{
    if s.len() > 0 && is_ws(s.last()) {
        trim_end(s.drop_last())
    } else {
        s
    }
}

/// `s` without leading and trailing whitespace.
pub open spec fn spec_trim(s: Seq<char>) -> Seq<char> {
    trim_end(trim_start(s))
}

/// Whether `c` is Unicode whitespace.
pub fn is_whitespace(c: char) -> (r: bool)
    ensures
        r == is_ws(c),
{
    let v = c as u32;
    (0x09 <= v && v <= 0x0d) || v == 0x20 || v == 0x85 || v == 0xa0 || v == 0x1680 || (0x2000 <= v
        && v <= 0x200a) || v == 0x2028 || v == 0x2029 || v == 0x202f || v == 0x205f || v == 0x3000
}

/// `s` with leading and trailing whitespace removed.
pub fn trim(s: &str) -> (r: &str)
    ensures
        r@ == spec_trim(s@),
{
    let n = s.unicode_len();
    let mut start: usize = 0;
    proof {
        assert(s@.skip(0) =~= s@);
    }
    while start < n && is_whitespace(s.get_char(start))
        invariant
            n == s@.len(),
            start <= n,
            trim_start(s@) == trim_start(s@.skip(start as int)),
        decreases n - start,
    {
        proof {
            assert(s@.skip(start as int).drop_first() =~= s@.skip(start + 1));
        }
        start += 1;
    }
    proof {
        if start == n {
            assert(s@.skip(start as int) =~= Seq::<char>::empty());
        }
        assert(trim_start(s@) =~= s@.skip(start as int));
    }
    let mut end: usize = n;
    proof {
        assert(s@.skip(start as int) =~= s@.subrange(start as int, n as int));
    }
    while end > start && is_whitespace(s.get_char(end - 1))
        invariant
            n == s@.len(),
            start <= end <= n,
            trim_end(s@.skip(start as int)) == trim_end(s@.subrange(start as int, end as int)),
        decreases end - start,
    {
        proof {
            assert(s@.subrange(start as int, end as int).drop_last() =~= s@.subrange(
                start as int,
                end - 1,
            ));
        }
        end -= 1;
    }
    proof {
        if end == start {
            assert(s@.subrange(start as int, end as int) =~= Seq::<char>::empty());
        }
        assert(trim_end(s@.subrange(start as int, end as int)) =~= s@.subrange(
            start as int,
            end as int,
        ));
    }
    s.substring_char(start, end)
}

/// Whether `s` is empty or only whitespace.
pub fn is_blank(s: &str) -> (r: bool)
    ensures
        r == (spec_trim(s@).len() == 0),
{
    trim(s).unicode_len() == 0
}

/// Why a string is not a `u128` in decimal.
#[derive(Debug, Clone, Copy, PartialEq, Eq, Structural)]
pub enum IntErrorKind {
    Empty,
    InvalidDigit,
    PosOverflow,
}

pub open spec fn is_digit(c: char) -> bool {
    '0' <= c <= '9'
}

pub open spec fn digit_value(c: char) -> nat {
    (c as u32 - '0' as u32) as nat
}

/// Reads the decimal `digits` after the value `acc` read so far.
pub open spec fn parse_digits(digits: Seq<char>, acc: nat) -> Result<u128, IntErrorKind>
    decreases digits.len(),
{
    if digits.len() == 0 {
        Ok(acc as u128)
    } else if !is_digit(digits[0]) {
        Err(IntErrorKind::InvalidDigit)
    } else if acc * 10 > u128::MAX {
        Err(IntErrorKind::PosOverflow)
    } else if acc * 10 + digit_value(digits[0]) > u128::MAX {
        Err(IntErrorKind::PosOverflow)
    } else {
        parse_digits(digits.drop_first(), acc * 10 + digit_value(digits[0]))
    }
}

/// `u128::from_str_radix(s, 10)`: an optional `+`, then decimal digits.
pub open spec fn spec_parse_u128(s: Seq<char>) -> Result<u128, IntErrorKind> {
    if s.len() == 0 {
        Err(IntErrorKind::Empty)
    } else if (s[0] == '+' || s[0] == '-') && s.len() == 1 {
        Err(IntErrorKind::InvalidDigit)
    } else if s[0] == '+' {
        parse_digits(s.drop_first(), 0)
    } else {
        parse_digits(s, 0)
    }
}

/// Parses an unsigned decimal integer as `u128::from_str_radix(s, 10)` does.
pub fn parse_u128(s: &str) -> (r: Result<u128, IntErrorKind>)
    ensures
        r == spec_parse_u128(s@),
{
    let n = s.unicode_len();
    if n == 0 {
        return Err(IntErrorKind::Empty);
    }
    let c0 = s.get_char(0);
    if (c0 == '+' || c0 == '-') && n == 1 {
        return Err(IntErrorKind::InvalidDigit);
    }
    let mut i: usize = if c0 == '+' { 1 } else { 0 };
    let ghost digits = if c0 == '+' { s@.drop_first() } else { s@ };
    proof {
        assert(digits =~= s@.skip(i as int));
    }
    let mut acc: u128 = 0;
    while i < n
        invariant
            n == s@.len(),
            i <= n,
            spec_parse_u128(s@) == parse_digits(s@.skip(i as int), acc as nat),
        decreases n - i,
    {
        let c = s.get_char(i);
        proof {
            assert(s@.skip(i as int)[0] == c);
            assert(s@.skip(i as int).drop_first() =~= s@.skip(i + 1));
        }
        if !('0' <= c && c <= '9') {
            return Err(IntErrorKind::InvalidDigit);
        }
        let d = (c as u32 - '0' as u32) as u128;
        if acc > u128::MAX / 10 {
            proof {
                assert(acc * 10 > u128::MAX) by (nonlinear_arith)
                    requires acc > u128::MAX / 10;
            }
            return Err(IntErrorKind::PosOverflow);
        }
        proof {
            assert(acc * 10 <= u128::MAX) by (nonlinear_arith)
                requires acc <= u128::MAX / 10;
        }
        let m = acc * 10;
        if m > u128::MAX - d {
            return Err(IntErrorKind::PosOverflow);
        }
        acc = m + d;
        i += 1;
    }
    proof {
        assert(s@.skip(i as int) =~= Seq::<char>::empty());
    }
    Ok(acc)
}

/// The decimal digit character of `d`.
pub open spec fn digit_char(d: nat) -> char {
    (48 + d) as char
}

/// The decimal representation of `n`, without leading zeros.
pub open spec fn spec_decimal(n: nat) -> Seq<char>
    decreases n,
{
    if n < 10 {
        seq![digit_char(n)]
    } else {
        spec_decimal(n / 10).push(digit_char(n % 10))
    }
}

/// The one-character string of the digit `d`.
fn digit_str(d: u8) -> (r: &'static str)
    requires
        d < 10,
    ensures
        r@ == seq![digit_char(d as nat)],
{
    proof {
        reveal_strlit("0");
        reveal_strlit("1");
        reveal_strlit("2");
        reveal_strlit("3");
        reveal_strlit("4");
        reveal_strlit("5");
        reveal_strlit("6");
        reveal_strlit("7");
        reveal_strlit("8");
        reveal_strlit("9");
    }
    match d {
        0 => "0",
        1 => "1",
        2 => "2",
        3 => "3",
        4 => "4",
        5 => "5",
        6 => "6",
        7 => "7",
        8 => "8",
        _ => "9",
    }
}

/// Appends the decimal representation of `n` to `s`.
pub fn push_decimal(s: &mut String, n: u128)
    ensures
        final(s)@ == old(s)@ + spec_decimal(n as nat),
{
    // digits, least significant first
    let mut digits: Vec<u8> = Vec::new();
    let mut m: u128 = n;
    let ghost mut rest: Seq<char> = Seq::empty();
    while m >= 10
        invariant
            m <= n,
            spec_decimal(n as nat) == spec_decimal(m as nat) + rest,
            rest.len() == digits@.len(),
            forall|k: int|
                0 <= k < digits@.len() ==> #[trigger] digits@[k] < 10 && rest[rest.len() - 1 - k]
                    == digit_char(digits@[k] as nat),
        decreases m,
    {
        let d = (m % 10) as u8;
        proof {
            let r2 = seq![digit_char(d as nat)] + rest;
            assert(spec_decimal(m as nat) == spec_decimal((m / 10) as nat).push(digit_char((m % 10) as nat)));
            assert(spec_decimal((m / 10) as nat).push(digit_char(d as nat)) + rest =~= spec_decimal((m / 10) as nat) + r2);
            rest = r2;
        }
        digits.push(d);
        m = m / 10;
    }
    let top = m as u8;
    proof {
        reveal_with_fuel(spec_decimal, 1);
    }
    s.append(digit_str(top));
    let ghost start = old(s)@ + seq![digit_char(top as nat)];
    proof {
        assert(spec_decimal(m as nat) == seq![digit_char(top as nat)]);
    }
    let mut k: usize = digits.len();
    while k > 0
        invariant
            k <= digits@.len(),
            rest.len() == digits@.len(),
            forall|j: int|
                0 <= j < digits@.len() ==> #[trigger] digits@[j] < 10 && rest[rest.len() - 1 - j]
                    == digit_char(digits@[j] as nat),
            s@ == start + rest.subrange(0, rest.len() - k),
        decreases k,
    {
        k -= 1;
        let ghost before = s@;
        s.append(digit_str(digits[k]));
        proof {
            assert(rest.subrange(0, rest.len() - k) =~= rest.subrange(0, rest.len() - k - 1).push(
                rest[rest.len() - 1 - k],
            ));
        }
    }
    proof {
        assert(rest.subrange(0, rest.len() as int) =~= rest);
        assert(old(s)@ + spec_decimal(n as nat) =~= start + rest);
    }
}

/// Whether two strings hold the same characters.
pub fn str_eq(a: &str, b: &str) -> (r: bool)
    ensures
        r == (a@ == b@),
{
    let n = a.unicode_len();
    if n != b.unicode_len() {
        return false;
    }
    let mut i: usize = 0;
    while i < n
        invariant
            n == a@.len(),
            n == b@.len(),
            i <= n,
            a@.subrange(0, i as int) == b@.subrange(0, i as int),
        decreases n - i,
    {
        if a.get_char(i) != b.get_char(i) {
            return false;
        }
        proof {
            assert(a@.subrange(0, i + 1) =~= a@.subrange(0, i as int).push(a@[i as int]));
            assert(b@.subrange(0, i + 1) =~= b@.subrange(0, i as int).push(b@[i as int]));
        }
        i += 1;
    }
    proof {
        assert(a@.subrange(0, n as int) =~= a@);
        assert(b@.subrange(0, n as int) =~= b@);
    }
    true
}

/// A copy of `s`.
pub fn copy_string(s: &String) -> (r: String)
    ensures
        r@ == s@,
{
    s.clone()
}

/// An owned copy of `s`.
pub fn to_string(s: &str) -> (r: String)
    ensures
        r@ == s@,
{
    String::from_str(s)
}

/// A copy of a list of strings.
pub fn copy_strings(v: &Vec<String>) -> (r: Vec<String>)
    ensures
        r@.len() == v@.len(),
        forall|i: int| 0 <= i < v@.len() ==> #[trigger] r@[i]@ == v@[i]@,
{
    let mut r: Vec<String> = Vec::new();
    for i in 0..v.len()
        invariant
            r@.len() == i,
            forall|j: int| 0 <= j < i ==> #[trigger] r@[j]@ == v@[j]@,
    {
        r.push(v[i].clone());
    }
    r
}

/// A copy of an optional string.
pub fn copy_opt_string(o: &Option<String>) -> (r: Option<String>)
    ensures
        opt_view(r) == opt_view(*o),
{
    match o {
        Some(s) => Some(s.clone()),
        None => None,
    }
}

/// The characters of an optional string.
pub open spec fn opt_view(o: Option<String>) -> Option<Seq<char>> {
    match o {
        Some(s) => Some(s@),
        None => None,
    }
}

/// The characters of each string of a list.
pub open spec fn strings_view(v: Seq<String>) -> Seq<Seq<char>> {
    v.map_values(|s: String| s@)
}

/// The text of a byte string that is not valid UTF-8, each invalid
/// sequence replaced by U+FFFD.
pub uninterp spec fn spec_utf8_lossy(b: Seq<u8>) -> Seq<char>;

/// The text of a byte string read as UTF-8: valid UTF-8 is read as it is,
/// anything else with each invalid sequence replaced by U+FFFD.
pub open spec fn spec_from_utf8_lossy(b: Seq<u8>) -> Seq<char> {
    if vstd::utf8::valid_utf8(b) {
        vstd::utf8::decode_utf8(b)
    } else {
        spec_utf8_lossy(b)
    }
}

/// `String::from_utf8_lossy`: the text of `b`; valid UTF-8 is read as it
/// is, each invalid sequence of anything else is replaced by U+FFFD (what
/// that gives is not stated beyond its name).
#[verifier::external_body]
pub(crate) fn utf8_lossy(b: &[u8]) -> (s: String)
    ensures
        vstd::utf8::valid_utf8(b@) ==> s@ == vstd::utf8::decode_utf8(b@),
        !vstd::utf8::valid_utf8(b@) ==> s@ == spec_utf8_lossy(b@),
{
    String::from_utf8_lossy(b).into_owned()
}

} // verus!
