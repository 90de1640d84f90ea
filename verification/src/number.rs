//! Reading numbers and booleans out of text the way `str::parse` does, and
//! writing unsigned integers back as decimal text.
use vstd::prelude::*;
use crate::text::chars_of;

verus! {

broadcast use vstd::string::group_string_axioms;

pub open spec fn is_digit(c: char) -> bool {
    '0' <= c && c <= '9'
}

pub open spec fn digit_value(c: char) -> int {
    (c as int) - ('0' as int)
}

pub open spec fn all_digits(s: Seq<char>) -> bool {
    forall|i: int| 0 <= i < s.len() ==> is_digit(#[trigger] s[i])
}

/// Why text is not an integer of a given type, as `core::num::IntErrorKind`
/// tells it apart.
#[derive(PartialEq, Eq, Structural, Clone, Copy, Debug)]
pub enum IntErrorKind {
    Empty,
    InvalidDigit,
    PosOverflow,
    NegOverflow,
}

/// Reads the digits of `d` from the left, stopping at the first position
/// where the character is not a digit or the value read so far exceeds
/// `limit`; `over` is the error reported in the second case.
pub open spec fn scan_magnitude(d: Seq<char>, limit: int, over: IntErrorKind) -> Result<int, IntErrorKind>
    decreases d.len(),
{
    if d.len() == 0 {
        Ok(0)
    } else {
        match scan_magnitude(d.drop_last(), limit, over) {
            Err(e) => Err(e),
            Ok(m) => {
                if !is_digit(d.last()) {
                    Err(IntErrorKind::InvalidDigit)
                } else if m * 10 + digit_value(d.last()) > limit {
                    Err(over)
                } else {
                    Ok(m * 10 + digit_value(d.last()))
                }
            },
        }
    }
}

/// The outcome of `str::parse` for an integer type with range `lo..=hi`:
/// an optional sign (`-` only where the type is signed) and then decimal
/// digits, with the first offending character or overflow deciding the error.
pub open spec fn parse_int(s: Seq<char>, signed: bool, lo: int, hi: int) -> Result<int, IntErrorKind> {
    if s.len() == 0 {
        Err(IntErrorKind::Empty)
    } else if (s[0] == '+' || s[0] == '-') && s.len() == 1 {
        Err(IntErrorKind::InvalidDigit)
    } else if s[0] == '+' {
        scan_magnitude(s.drop_first(), hi, IntErrorKind::PosOverflow)
    } else if s[0] == '-' && signed {
        match scan_magnitude(s.drop_first(), -lo, IntErrorKind::NegOverflow) {
            Ok(m) => Ok(-m),
            Err(e) => Err(e),
        }
    } else {
        scan_magnitude(s, hi, IntErrorKind::PosOverflow)
    }
}

pub open spec fn parse_i32_spec(s: Seq<char>) -> Result<int, IntErrorKind> {
    parse_int(s, true, i32::MIN as int, i32::MAX as int)
}

pub open spec fn parse_u64_spec(s: Seq<char>) -> Result<int, IntErrorKind> {
    parse_int(s, false, 0, u64::MAX as int)
}

/// The text that `ParseIntError` displays for each kind.
pub open spec fn int_error_text(k: IntErrorKind) -> Seq<char> {
    match k {
        IntErrorKind::Empty => "cannot parse integer from empty string"@,
        IntErrorKind::InvalidDigit => "invalid digit found in string"@,
        IntErrorKind::PosOverflow => "number too large to fit in target type"@,
        IntErrorKind::NegOverflow => "number too small to fit in target type"@,
    }
}

/// The message of an integer parse error.
pub fn int_error_message(k: IntErrorKind) -> (m: String)
    ensures
        m@ == int_error_text(k),
{
    match k {
        IntErrorKind::Empty => "cannot parse integer from empty string".to_string(),
        IntErrorKind::InvalidDigit => "invalid digit found in string".to_string(),
        IntErrorKind::PosOverflow => "number too large to fit in target type".to_string(),
        IntErrorKind::NegOverflow => "number too small to fit in target type".to_string(),
    }
}

/// Reads the decimal digits of `v[start..]`, each value read bounded by `limit`.
fn scan_digits(v: &Vec<char>, start: usize, limit: u64, over: IntErrorKind) -> (r: Result<u64, IntErrorKind>)
    requires
        start <= v@.len(),
    ensures
        match scan_magnitude(v@.subrange(start as int, v@.len() as int), limit as int, over) {
            Ok(m) => r == Ok::<u64, IntErrorKind>(m as u64),
            Err(e) => r == Err::<u64, IntErrorKind>(e),
        },
        r matches Ok(m) ==> m <= limit,
{
    proof {
        lemma_scan_bounded(v@.subrange(start as int, v@.len() as int), limit as int, over);
    }
    let mut acc: u64 = 0;
    let mut i = start;
    while i < v.len()
        invariant
            start <= i <= v@.len(),
            acc <= limit,
            scan_magnitude(v@.subrange(start as int, i as int), limit as int, over) == Ok::<int, IntErrorKind>(acc as int),
        decreases v@.len() - i,
    {
        let c = v[i];
        proof {
            assert(v@.subrange(start as int, i + 1).drop_last() =~= v@.subrange(start as int, i as int));
            assert(v@.subrange(start as int, i + 1).last() == c);
        }
        if !('0' <= c && c <= '9') {
            proof {
                lemma_scan_stops(v@, start as int, i as int + 1, limit as int, over);
            }
            return Err(IntErrorKind::InvalidDigit);
        }
        let d = (c as u32 - '0' as u32) as u128;
        let next: u128 = (acc as u128) * 10 + d;
        if next > limit as u128 {
            proof {
                lemma_scan_stops(v@, start as int, i as int + 1, limit as int, over);
            }
            return Err(over);
        }
        acc = next as u64;
        i = i + 1;
    }
    assert(v@.subrange(start as int, v@.len() as int) =~= v@.subrange(start as int, i as int));
    Ok(acc)
}

pub proof fn lemma_scan_bounded(d: Seq<char>, limit: int, over: IntErrorKind)
    requires
        limit >= 0,
    ensures
        scan_magnitude(d, limit, over) matches Ok(m) ==> 0 <= m <= limit,
    decreases d.len(),
{
    if d.len() > 0 {
        lemma_scan_bounded(d.drop_last(), limit, over);
    }
}

/// Once the scan of a prefix fails, the scan of everything fails the same way.
proof fn lemma_scan_stops(v: Seq<char>, start: int, i: int, limit: int, over: IntErrorKind)
    requires
        0 <= start <= i <= v.len(),
        scan_magnitude(v.subrange(start, i), limit, over) is Err,
    ensures
        scan_magnitude(v.subrange(start, v.len() as int), limit, over) == scan_magnitude(v.subrange(start, i), limit, over),
    decreases v.len() - i,
{
    if i < v.len() {
        assert(v.subrange(start, i + 1).drop_last() =~= v.subrange(start, i));
        lemma_scan_stops(v, start, i + 1, limit, over);
    } else {
        assert(v.subrange(start, i) =~= v.subrange(start, v.len() as int));
    }
}

/// `str::parse::<i32>`, with the error told by its kind.
pub fn parse_i32(v: &Vec<char>) -> (r: Result<i32, IntErrorKind>)
    ensures
        match parse_i32_spec(v@) {
            Ok(n) => r == Ok::<i32, IntErrorKind>(n as i32),
            Err(e) => r == Err::<i32, IntErrorKind>(e),
        },
{
    if v.len() == 0 {
        return Err(IntErrorKind::Empty);
    }
    if (v[0] == '+' || v[0] == '-') && v.len() == 1 {
        return Err(IntErrorKind::InvalidDigit);
    }
    let ghost rest = v@.subrange(1, v@.len() as int);
    assert(v@.drop_first() =~= rest);
    assert(v@ =~= v@.subrange(0, v@.len() as int));
    if v[0] == '-' {
        let s = scan_digits(v, 1, 2147483648, IntErrorKind::NegOverflow);
        proof {
            lemma_scan_bounded(rest, 2147483648, IntErrorKind::NegOverflow);
        }
        match s {
            Ok(m) => {
                let n: i64 = 0 - (m as i64);
                Ok(n as i32)
            },
            Err(e) => Err(e),
        }
    } else {
        let start: usize = if v[0] == '+' { 1 } else { 0 };
        let s = scan_digits(v, start, 2147483647, IntErrorKind::PosOverflow);
        proof {
            lemma_scan_bounded(v@.subrange(start as int, v@.len() as int), 2147483647, IntErrorKind::PosOverflow);
        }
        match s {
            Ok(m) => Ok(m as i32),
            Err(e) => Err(e),
        }
    }
}

/// `str::parse::<u64>`, with the error told by its kind.
pub fn parse_u64(v: &Vec<char>) -> (r: Result<u64, IntErrorKind>)
    ensures
        match parse_u64_spec(v@) {
            Ok(n) => r == Ok::<u64, IntErrorKind>(n as u64),
            Err(e) => r == Err::<u64, IntErrorKind>(e),
        },
{
    if v.len() == 0 {
        return Err(IntErrorKind::Empty);
    }
    if (v[0] == '+' || v[0] == '-') && v.len() == 1 {
        return Err(IntErrorKind::InvalidDigit);
    }
    assert(v@.drop_first() =~= v@.subrange(1, v@.len() as int));
    assert(v@ =~= v@.subrange(0, v@.len() as int));
    if v[0] == '+' {
        scan_digits(v, 1, 18446744073709551615, IntErrorKind::PosOverflow)
    } else {
        scan_digits(v, 0, 18446744073709551615, IntErrorKind::PosOverflow)
    }
}


pub open spec fn is_sign(c: char) -> bool {
    c == '+' || c == '-'
}

/// ASCII lower case of `c`.
pub open spec fn lower(c: char) -> char {
    if 'A' <= c && c <= 'Z' {
        ((c as u32) + 32) as char
    } else {
        c
    }
}

/// `s` equals the lower-case word `w` when ASCII case is ignored.
pub open spec fn eq_ignore_case(s: Seq<char>, w: Seq<char>) -> bool {
    &&& s.len() == w.len()
    &&& forall|i: int| 0 <= i < s.len() ==> lower(#[trigger] s[i]) == w[i]
}

pub open spec fn is_exp_marker(c: char) -> bool {
    c == 'e' || c == 'E'
}

/// `Digit+ | Digit+ '.' Digit* | Digit* '.' Digit+`: digits with at most
/// one point, and at least one digit.
pub open spec fn is_mantissa(m: Seq<char>) -> bool {
    &&& forall|i: int| 0 <= i < m.len() ==> is_digit(#[trigger] m[i]) || m[i] == '.'
    &&& forall|i: int, j: int| 0 <= i < m.len() && 0 <= j < m.len() && #[trigger] m[i] == '.' && #[trigger] m[j] == '.' ==> i == j
    &&& exists|i: int| 0 <= i < m.len() && is_digit(#[trigger] m[i])
}

/// `Sign? Digit+`, what follows the exponent marker.
pub open spec fn is_exponent(x: Seq<char>) -> bool {
    if x.len() > 0 && is_sign(x[0]) {
        x.len() > 1 && all_digits(x.drop_first())
    } else {
        x.len() > 0 && all_digits(x)
    }
}

/// `Number ::= Mantissa Exp?` where `Exp ::= 'e' Sign? Digit+`.
pub open spec fn is_decimal_number(b: Seq<char>) -> bool {
    ||| is_mantissa(b)
    ||| exists|i: int|
        0 <= i < b.len() && is_exp_marker(#[trigger] b[i]) && is_mantissa(b.subrange(0, i))
            && is_exponent(b.subrange(i + 1, b.len() as int))
}

/// `s` without its leading sign, if it has one.
pub open spec fn unsigned_part(s: Seq<char>) -> Seq<char> {
    if s.len() > 0 && is_sign(s[0]) {
        s.drop_first()
    } else {
        s
    }
}

/// The text that `str::parse::<f64>` accepts, as its documentation gives
/// the grammar (ASCII case ignored):
/// `Sign? ( 'inf' | 'infinity' | 'nan' | Number )`.
pub open spec fn is_float_literal(s: Seq<char>) -> bool {
    let b = unsigned_part(s);
    ||| eq_ignore_case(b, "inf"@)
    ||| eq_ignore_case(b, "infinity"@)
    ||| eq_ignore_case(b, "nan"@)
    ||| is_decimal_number(b)
}

/// The text that `ParseFloatError` displays for rejected text `s`.
pub open spec fn float_error_text(s: Seq<char>) -> Seq<char> {
    if s.len() == 0 {
        "cannot parse float from empty string"@
    } else {
        "invalid float literal"@
    }
}

/// The message of a float parse error for the rejected text `v`.
pub fn float_error_message(v: &Vec<char>) -> (m: String)
    ensures
        m@ == float_error_text(v@),
{
    if v.len() == 0 {
        "cannot parse float from empty string".to_string()
    } else {
        "invalid float literal".to_string()
    }
}

fn lower_is(c: char, w: char) -> (r: bool)
    requires
        'a' <= w <= 'z',
    ensures
        r == (lower(c) == w),
{
    let cu = c as u32;
    let wu = w as u32;
    if 'A' <= c && c <= 'Z' {
        assert(lower(c) as u32 == cu + 32);
        cu + 32 == wu
    } else {
        c == w
    }
}

/// Whether `v` equals the lower-case word `w`, ASCII case ignored.
fn eq_ignore_case_chars(v: &Vec<char>, w: &Vec<char>) -> (r: bool)
    requires
        forall|i: int| 0 <= i < w@.len() ==> 'a' <= #[trigger] w@[i] <= 'z',
    ensures
        r == eq_ignore_case(v@, w@),
{
    if v.len() != w.len() {
        return false;
    }
    let mut i: usize = 0;
    while i < v.len()
        invariant
            v@.len() == w@.len(),
            i <= v@.len(),
            forall|k: int| 0 <= k < w@.len() ==> 'a' <= #[trigger] w@[k] <= 'z',
            forall|k: int| 0 <= k < i ==> lower(#[trigger] v@[k]) == w@[k],
        decreases v@.len() - i,
    {
        if !lower_is(v[i], w[i]) {
            return false;
        }
        i = i + 1;
    }
    true
}

fn is_mantissa_chars(m: &Vec<char>) -> (r: bool)
    ensures
        r == is_mantissa(m@),
{
    let mut dot: Option<usize> = None;
    let mut digit: Option<usize> = None;
    let mut i: usize = 0;
    while i < m.len()
        invariant
            i <= m@.len(),
            forall|k: int| 0 <= k < i ==> is_digit(#[trigger] m@[k]) || m@[k] == '.',
            dot matches Some(d) ==> d < i && m@[d as int] == '.' && forall|k: int| 0 <= k < i && m@[k] == '.' ==> k == d,
            dot is None ==> forall|k: int| 0 <= k < i ==> m@[k] != '.',
            digit matches Some(d) ==> d < i && is_digit(m@[d as int]),
            digit is None ==> forall|k: int| 0 <= k < i ==> !is_digit(m@[k]),
        decreases m@.len() - i,
    {
        let c = m[i];
        if '0' <= c && c <= '9' {
            digit = Some(i);
        } else if c == '.' {
            if dot.is_some() {
                return false;
            }
            dot = Some(i);
        } else {
            return false;
        }
        i = i + 1;
    }
    match digit {
        Some(d) => {
            assert(is_digit(m@[d as int]));
            true
        },
        None => false,
    }
}

fn is_digits_chars(v: &Vec<char>, start: usize) -> (r: bool)
    requires
        start <= v@.len(),
    ensures
        r == all_digits(v@.subrange(start as int, v@.len() as int)),
{
    let mut i = start;
    while i < v.len()
        invariant
            start <= i <= v@.len(),
            forall|k: int| start <= k < i ==> is_digit(#[trigger] v@[k]),
        decreases v@.len() - i,
    {
        if !('0' <= v[i] && v[i] <= '9') {
            assert(v@.subrange(start as int, v@.len() as int)[i - start] == v@[i as int]);
            return false;
        }
        i = i + 1;
    }
    assert forall|k: int| 0 <= k < v@.len() - start implies is_digit(#[trigger] v@.subrange(start as int, v@.len() as int)[k]) by {
        assert(v@.subrange(start as int, v@.len() as int)[k] == v@[start + k]);
    }
    true
}

fn is_exponent_chars(x: &Vec<char>) -> (r: bool)
    ensures
        r == is_exponent(x@),
{
    if x.len() > 0 && (x[0] == '+' || x[0] == '-') {
        assert(x@.drop_first() =~= x@.subrange(1, x@.len() as int));
        x.len() > 1 && is_digits_chars(x, 1)
    } else {
        assert(x@ =~= x@.subrange(0, x@.len() as int));
        x.len() > 0 && is_digits_chars(x, 0)
    }
}

fn is_decimal_number_chars(b: &Vec<char>) -> (r: bool)
    ensures
        r == is_decimal_number(b@),
{
    let mut k: usize = 0;
    while k < b.len() && b[k] != 'e' && b[k] != 'E'
        invariant
            k <= b@.len(),
            forall|j: int| 0 <= j < k ==> !is_exp_marker(#[trigger] b@[j]),
        decreases b@.len() - k,
    {
        k = k + 1;
    }
    if k == b.len() {
        let r = is_mantissa_chars(b);
        assert forall|i: int| 0 <= i < b@.len() implies !is_exp_marker(#[trigger] b@[i]) by {}
        r
    } else {
        let m = slice_prefix(b, k);
        let x = slice_suffix(b, k + 1);
        let r = is_mantissa_chars(&m) && is_exponent_chars(&x);
        proof {
            assert(is_exp_marker(b@[k as int]));
            assert(!is_digit(b@[k as int]) && b@[k as int] != '.');
            assert(!is_mantissa(b@));
            assert forall|i: int|
                0 <= i < b@.len() && is_exp_marker(#[trigger] b@[i]) && is_mantissa(b@.subrange(0, i))
                    && is_exponent(b@.subrange(i + 1, b@.len() as int)) implies i == k by {
                if i > k {
                    assert(b@.subrange(0, i)[k as int] == b@[k as int]);
                }
            }
        }
        r
    }
}

fn slice_prefix(v: &Vec<char>, n: usize) -> (r: Vec<char>)
    requires
        n <= v@.len(),
    ensures
        r@ == v@.subrange(0, n as int),
{
    crate::text::slice_chars(v, 0, n)
}

fn slice_suffix(v: &Vec<char>, n: usize) -> (r: Vec<char>)
    requires
        n <= v@.len(),
    ensures
        r@ == v@.subrange(n as int, v@.len() as int),
{
    crate::text::slice_chars(v, n, v.len())
}

/// Whether `str::parse::<f64>` accepts `v`.
pub fn is_float_literal_chars(v: &Vec<char>) -> (r: bool)
    ensures
        r == is_float_literal(v@),
{
    let b = if v.len() > 0 && (v[0] == '+' || v[0] == '-') {
        let b = slice_suffix(v, 1);
        assert(b@ =~= v@.drop_first());
        b
    } else {
        let b = slice_suffix(v, 0);
        assert(b@ =~= v@);
        b
    };
    let inf = chars_of("inf");
    let infinity = chars_of("infinity");
    let nan = chars_of("nan");
    proof {
        reveal_strlit("inf");
        reveal_strlit("infinity");
        reveal_strlit("nan");
    }
    eq_ignore_case_chars(&b, &inf) || eq_ignore_case_chars(&b, &infinity) || eq_ignore_case_chars(&b, &nan)
        || is_decimal_number_chars(&b)
}

/// What `str::parse::<bool>` gives: `true` and `false` exactly.
pub open spec fn parse_bool_spec(s: Seq<char>) -> Option<bool> {
    if s == "true"@ {
        Some(true)
    } else if s == "false"@ {
        Some(false)
    } else {
        None
    }
}

/// `str::parse::<bool>`.
pub fn parse_bool(v: &Vec<char>) -> (r: Option<bool>)
    ensures
        r == parse_bool_spec(v@),
{
    if crate::text::chars_eq(v, &chars_of("true")) {
        Some(true)
    } else if crate::text::chars_eq(v, &chars_of("false")) {
        Some(false)
    } else {
        None
    }
}


/// The decimal digit character for `d < 10`.
pub open spec fn digit_char(d: int) -> char {
    (('0' as u32) + d) as char
}

/// `n` written in decimal, as `Display` writes an unsigned integer.
pub open spec fn decimal_text(n: nat) -> Seq<char>
    decreases n,
{
    if n < 10 {
        seq![digit_char(n as int)]
    } else {
        decimal_text(n / 10).push(digit_char((n % 10) as int))
    }
}

fn digit_to_char(d: u64) -> (c: char)
    requires
        d < 10,
    ensures
        c == digit_char(d as int),
{
    let digits: [char; 10] = ['0', '1', '2', '3', '4', '5', '6', '7', '8', '9'];
    digits[d as usize]
}

/// The decimal digits of `n`.
pub fn decimal_chars(n: u64) -> (v: Vec<char>)
    ensures
        v@ == decimal_text(n as nat),
    decreases n,
{
    if n < 10 {
        let mut v: Vec<char> = Vec::new();
        v.push(digit_to_char(n));
        assert(v@ =~= seq![digit_char(n as int)]);
        v
    } else {
        let mut v = decimal_chars(n / 10);
        v.push(digit_to_char(n % 10));
        v
    }
}

/// The characters a float literal can hold: ASCII letters and digits, the
/// point and the signs.
pub open spec fn is_float_char(c: char) -> bool {
    ||| is_digit(c)
    ||| c == '.'
    ||| c == '+'
    ||| c == '-'
    ||| ('a' <= c && c <= 'z')
    ||| ('A' <= c && c <= 'Z')
}

proof fn lemma_word_chars(b: Seq<char>, w: Seq<char>)
    requires
        eq_ignore_case(b, w),
        forall|i: int| 0 <= i < w.len() ==> 'a' <= #[trigger] w[i] <= 'z',
    ensures
        forall|i: int| 0 <= i < b.len() ==> is_float_char(#[trigger] b[i]),
{
    assert forall|i: int| 0 <= i < b.len() implies is_float_char(#[trigger] b[i]) by {
        assert(lower(b[i]) == w[i]);
    }
}

/// Every character of a float literal is a letter, a digit, a point or a
/// sign.
pub proof fn lemma_float_literal_chars(s: Seq<char>)
    requires
        is_float_literal(s),
    ensures
        forall|i: int| 0 <= i < s.len() ==> is_float_char(#[trigger] s[i]),
{
    let b = unsigned_part(s);
    reveal_strlit("inf");
    reveal_strlit("infinity");
    reveal_strlit("nan");
    if eq_ignore_case(b, "inf"@) {
        lemma_word_chars(b, "inf"@);
    } else if eq_ignore_case(b, "infinity"@) {
        lemma_word_chars(b, "infinity"@);
    } else if eq_ignore_case(b, "nan"@) {
        lemma_word_chars(b, "nan"@);
    } else if is_mantissa(b) {
    } else {
        let k = choose|i: int|
            0 <= i < b.len() && is_exp_marker(#[trigger] b[i]) && is_mantissa(b.subrange(0, i))
                && is_exponent(b.subrange(i + 1, b.len() as int));
        assert forall|i: int| 0 <= i < b.len() implies is_float_char(#[trigger] b[i]) by {
            if i < k {
                assert(b.subrange(0, k)[i] == b[i]);
            } else if i > k {
                let x = b.subrange(k + 1, b.len() as int);
                assert(x[i - k - 1] == b[i]);
                if x.len() > 0 && is_sign(x[0]) && i > k + 1 {
                    assert(x.drop_first()[i - k - 2] == b[i]);
                }
            }
        }
    }
    assert forall|i: int| 0 <= i < s.len() implies is_float_char(#[trigger] s[i]) by {
        if s.len() > 0 && is_sign(s[0]) && i > 0 {
            assert(b[i - 1] == s[i]);
        } else if !(s.len() > 0 && is_sign(s[0])) {
            assert(b[i] == s[i]);
        }
    }
}

proof fn lemma_scan_ok_digits(d: Seq<char>, limit: int, over: IntErrorKind)
    requires
        scan_magnitude(d, limit, over) is Ok,
    ensures
        all_digits(d),
    decreases d.len(),
{
    if d.len() > 0 {
        lemma_scan_ok_digits(d.drop_last(), limit, over);
        assert forall|i: int| 0 <= i < d.len() implies is_digit(#[trigger] d[i]) by {
            if i < d.len() - 1 {
                assert(d.drop_last()[i] == d[i]);
            }
        }
    }
}

/// Text that reads as an integer holds only digits and a leading sign.
pub proof fn lemma_parse_int_chars(s: Seq<char>, signed: bool, lo: int, hi: int)
    requires
        parse_int(s, signed, lo, hi) is Ok,
    ensures
        forall|i: int| 0 <= i < s.len() ==> is_digit(#[trigger] s[i]) || (i == 0 && is_sign(s[i])),
{
    if s[0] == '+' || (s[0] == '-' && signed) {
        let lim = if s[0] == '+' { hi } else { -lo };
        let over = if s[0] == '+' { IntErrorKind::PosOverflow } else { IntErrorKind::NegOverflow };
        lemma_scan_ok_digits(s.drop_first(), lim, over);
        assert forall|i: int| 0 <= i < s.len() implies is_digit(#[trigger] s[i]) || (i == 0 && is_sign(s[i])) by {
            if i > 0 {
                assert(s.drop_first()[i - 1] == s[i]);
            }
        }
    } else {
        lemma_scan_ok_digits(s, hi, IntErrorKind::PosOverflow);
    }
}

proof fn lemma_digit_char(d: int)
    requires
        0 <= d < 10,
    ensures
        is_digit(digit_char(d)),
        digit_value(digit_char(d)) == d,
{
    assert(('0' as u32) == 48);
    assert((48 + d) as char as int == 48 + d);
}

proof fn lemma_scan_decimal(n: nat, limit: int, over: IntErrorKind)
    requires
        n <= limit,
    ensures
        scan_magnitude(decimal_text(n), limit, over) == Ok::<int, IntErrorKind>(n as int),
    decreases n,
{
    if n >= 10 {
        lemma_scan_decimal(n / 10, limit, over);
        lemma_digit_char((n % 10) as int);
        assert(decimal_text(n).drop_last() =~= decimal_text(n / 10));
        assert((n / 10) * 10 + n % 10 == n);
        assert(decimal_text(n).last() == digit_char((n % 10) as int));
        assert(n / 10 <= limit);
    } else {
        lemma_digit_char(n as int);
        assert(decimal_text(n).drop_last() =~= Seq::<char>::empty());
        assert(scan_magnitude(Seq::<char>::empty(), limit, over) == Ok::<int, IntErrorKind>(0));
        assert(decimal_text(n).last() == digit_char(n as int));
    }
}

/// Decimal text written for an unsigned integer reads back as that integer.
pub proof fn law_decimal_read_back(n: u64)
    ensures
        parse_u64_spec(decimal_text(n as nat)) == Ok::<int, IntErrorKind>(n as int),
{
    lemma_scan_decimal(n as nat, u64::MAX as int, IntErrorKind::PosOverflow);
    let t = decimal_text(n as nat);
    assert(t.len() >= 1 && is_digit(t[0])) by {
        lemma_decimal_first(n as nat);
    }
}

proof fn lemma_decimal_first(n: nat)
    ensures
        decimal_text(n).len() >= 1,
        is_digit(decimal_text(n)[0]),
    decreases n,
{
    if n >= 10 {
        lemma_decimal_first(n / 10);
        assert(decimal_text(n)[0] == decimal_text(n / 10)[0]);
    } else {
        lemma_digit_char(n as int);
    }
}

} // verus!
