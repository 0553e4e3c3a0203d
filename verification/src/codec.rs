//! Wire codec primitives for the JSON records that cross the relay.
//!
//! The records that the relay accepts and forwards are flat JSON objects
//! whose members are strings or unsigned integers. This module gives the
//! byte-level grammar of those objects: whitespace, strings with the usual
//! escapes, decimal numbers, and `"key": value` members. Every executable
//! function is proved to return exactly what its specification-level
//! counterpart describes, so the record codecs built on top of these
//! primitives can state their behaviour as a function of the input bytes.

use vstd::prelude::*;

verus! {

/// `"`: delimits JSON strings.
pub const QUOTE: u8 = 0x22;

/// `\`: starts an escape inside a JSON string.
pub const BACKSLASH: u8 = 0x5c;

/// `{` and `}`: delimit a JSON object.
pub const LBRACE: u8 = 0x7b;

pub const RBRACE: u8 = 0x7d;

/// `,`: separates object members.
pub const COMMA: u8 = 0x2c;

/// `:`: separates a member's key from its value.
pub const COLON: u8 = 0x3a;

/// JSON insignificant whitespace: space, tab, line feed, carriage return.
pub open spec fn is_ws(b: u8) -> bool {
    b == 0x20 || b == 0x09 || b == 0x0a || b == 0x0d
}

/// ASCII decimal digit.
pub open spec fn is_digit(b: u8) -> bool {
    0x30 <= b && b <= 0x39
}

/// First position at or after `i` that does not hold whitespace.
pub open spec fn spec_skip_ws(s: Seq<u8>, i: int) -> int
    decreases s.len() - i,
{
    if 0 <= i && i < s.len() && is_ws(s[i]) {
        spec_skip_ws(s, i + 1)
    } else {
        i
    }
}

/// Advances past insignificant whitespace.
pub fn skip_ws(s: &Vec<u8>, i: usize) -> (r: usize)
    requires
        i <= s@.len(),
    ensures
        r == spec_skip_ws(s@, i as int),
        i <= r <= s@.len(),
{
    let mut j = i;
    while j < s.len() && (s[j] == 0x20 || s[j] == 0x09 || s[j] == 0x0a || s[j] == 0x0d)
        invariant
            i <= j <= s@.len(),
            spec_skip_ws(s@, i as int) == spec_skip_ws(s@, j as int),
        decreases s@.len() - j,
    {
        j = j + 1;
    }
    j
}

/// Byte denoted by the single character following a backslash in a JSON
/// string, for the escapes this codec understands.
pub open spec fn spec_esc_code(e: u8) -> Option<u8> {
    if e == QUOTE {
        Some(QUOTE)
    } else if e == BACKSLASH {
        Some(BACKSLASH)
    } else if e == 0x2f {  // `/`
        Some(0x2fu8)
    } else if e == 0x62 {  // `b`
        Some(0x08u8)
    } else if e == 0x66 {  // `f`
        Some(0x0cu8)
    } else if e == 0x6e {  // `n`
        Some(0x0au8)
    } else if e == 0x72 {  // `r`
        Some(0x0du8)
    } else if e == 0x74 {  // `t`
        Some(0x09u8)
    } else {
        None
    }
}

fn esc_code(e: u8) -> (r: Option<u8>)
    ensures
        r == spec_esc_code(e),
{
    if e == QUOTE {
        Some(QUOTE)
    } else if e == BACKSLASH {
        Some(BACKSLASH)
    } else if e == 0x2f {
        Some(0x2f)
    } else if e == 0x62 {
        Some(0x08)
    } else if e == 0x66 {
        Some(0x0c)
    } else if e == 0x6e {
        Some(0x0a)
    } else if e == 0x72 {
        Some(0x0d)
    } else if e == 0x74 {
        Some(0x09)
    } else {
        None
    }
}

/// Value of an ASCII hexadecimal digit, upper or lower case.
pub open spec fn spec_hex_val(b: u8) -> Option<u8> {
    if 0x30 <= b && b <= 0x39 {
        Some((b - 0x30) as u8)
    } else if 0x61 <= b && b <= 0x66 {
        Some((b - 0x61 + 10) as u8)
    } else if 0x41 <= b && b <= 0x46 {
        Some((b - 0x41 + 10) as u8)
    } else {
        None
    }
}

fn hex_val(b: u8) -> (r: Option<u8>)
    ensures
        r == spec_hex_val(b),
        r matches Some(v) ==> v < 16,
{
    if 0x30 <= b && b <= 0x39 {
        Some(b - 0x30)
    } else if 0x61 <= b && b <= 0x66 {
        Some(b - 0x61 + 10)
    } else if 0x41 <= b && b <= 0x46 {
        Some(b - 0x41 + 10)
    } else {
        None
    }
}

/// Prepends a decoded byte to the outcome of parsing the rest of a string.
pub open spec fn spec_cons_byte(b: u8, rest: Option<(Seq<u8>, int)>) -> Option<(Seq<u8>, int)> {
    match rest {
        Some(p) => Some((seq![b] + p.0, p.1)),
        None => None,
    }
}

/// Parses the remainder of a JSON string, `i` standing just after the
/// opening quote. Returns the decoded contents and the position just after
/// the closing quote. Escapes cover `\" \\ \/ \b \f \n \r \t` and `\u00XX`
/// for ASCII code points; unescaped control bytes are refused, as JSON
/// requires.
pub open spec fn spec_parse_string_rest(s: Seq<u8>, i: int) -> Option<(Seq<u8>, int)>
    decreases s.len() - i,
{
    if i < 0 || i >= s.len() {
        None
    } else if s[i] == QUOTE {
        Some((Seq::empty(), i + 1))
    } else if s[i] == BACKSLASH {
        if i + 1 < s.len() && s[i + 1] == 0x75 {  // `u`
            if i + 5 < s.len() {
                match (spec_hex_val(s[i + 4]), spec_hex_val(s[i + 5])) {
                    (Some(h), Some(l)) => {
                        if s[i + 2] == 0x30 && s[i + 3] == 0x30 && 16 * h + l < 0x80 {
                            spec_cons_byte((16 * h + l) as u8, spec_parse_string_rest(s, i + 6))
                        } else {
                            None
                        }
                    },
                    _ => None,
                }
            } else {
                None
            }
        } else if i + 1 < s.len() {
            match spec_esc_code(s[i + 1]) {
                Some(b) => spec_cons_byte(b, spec_parse_string_rest(s, i + 2)),
                None => None,
            }
        } else {
            None
        }
    } else if s[i] < 0x20 {
        None
    } else {
        spec_cons_byte(s[i], spec_parse_string_rest(s, i + 1))
    }
}

/// Parses the remainder of a JSON string, as [`spec_parse_string_rest`]
/// describes.
pub fn parse_string_rest(s: &Vec<u8>, i: usize) -> (r: Option<(Vec<u8>, usize)>)
    ensures
        ({
            let m = spec_parse_string_rest(s@, i as int);
            match r {
                Some(p) => m matches Some(q) && p.0@ == q.0 && p.1 as int == q.1 && i < p.1
                    <= s@.len(),
                None => m is None,
            }
        }),
    decreases s@.len() - i,
{
    if i >= s.len() {
        return None;
    }
    let b = s[i];
    if b == QUOTE {
        return Some((Vec::new(), i + 1));
    }
    if b == BACKSLASH {
        if i + 1 < s.len() && s[i + 1] == 0x75 {
            if s.len() - i > 5 {
                match (hex_val(s[i + 4]), hex_val(s[i + 5])) {
                    (Some(h), Some(l)) => {
                        let v: u8 = 16 * h + l;
                        if s[i + 2] == 0x30 && s[i + 3] == 0x30 && v < 0x80 {
                            match parse_string_rest(s, i + 6) {
                                Some((mut t, j)) => {
                                    t.insert(0, v);
                                    proof {
                                        assert(t@ =~= seq![v] + t@.skip(1));
                                    }
                                    Some((t, j))
                                },
                                None => None,
                            }
                        } else {
                            None
                        }
                    },
                    _ => None,
                }
            } else {
                None
            }
        } else if i + 1 < s.len() {
            match esc_code(s[i + 1]) {
                Some(e) => match parse_string_rest(s, i + 2) {
                    Some((mut t, j)) => {
                        t.insert(0, e);
                        proof {
                            assert(t@ =~= seq![e] + t@.skip(1));
                        }
                        Some((t, j))
                    },
                    None => None,
                },
                None => None,
            }
        } else {
            None
        }
    } else if b < 0x20 {
        None
    } else {
        match parse_string_rest(s, i + 1) {
            Some((mut t, j)) => {
                t.insert(0, b);
                proof {
                    assert(t@ =~= seq![b] + t@.skip(1));
                }
                Some((t, j))
            },
            None => None,
        }
    }
}

/// First position at or after `i` that does not hold a decimal digit.
pub open spec fn spec_skip_digits(s: Seq<u8>, i: int) -> int
    decreases s.len() - i,
{
    if 0 <= i && i < s.len() && is_digit(s[i]) {
        spec_skip_digits(s, i + 1)
    } else {
        i
    }
}

/// Value of a run of decimal digit bytes, folded from the left; `None` if a
/// byte is not a digit or the value overflows a `u64`.
pub open spec fn spec_digits_val(d: Seq<u8>) -> Option<u64>
    decreases d.len(),
{
    if d.len() == 0 {
        Some(0u64)
    } else {
        match spec_digits_val(d.drop_last()) {
            Some(v) => {
                if is_digit(d.last()) {
                    let x = v * 10 + (d.last() - 0x30);
                    if x <= u64::MAX {
                        Some(x as u64)
                    } else {
                        None
                    }
                } else {
                    None
                }
            },
            None => None,
        }
    }
}

/// Parses a JSON unsigned integer at `i`: one or more digits, no leading
/// zero unless the number is `0` itself, rejected on overflow past
/// `u64::MAX`. Returns the value and the position just after the digits.
pub open spec fn spec_parse_number(s: Seq<u8>, i: int) -> Option<(u64, int)> {
    let j = spec_skip_digits(s, i);
    if j == i {
        None
    } else if s[i] == 0x30 && j > i + 1 {
        None
    } else {
        match spec_digits_val(s.subrange(i, j)) {
            Some(v) => Some((v, j)),
            None => None,
        }
    }
}

/// If a prefix of the digit run already has no value, neither has the run.
proof fn lemma_digits_val_none_prefix(d: Seq<u8>, k: int)
    requires
        0 <= k <= d.len(),
        spec_digits_val(d.take(k)) is None,
    ensures
        spec_digits_val(d) is None,
    decreases d.len() - k,
{
    if k == d.len() {
        assert(d.take(k) =~= d);
    } else {
        assert(d.take(k + 1).drop_last() =~= d.take(k));
        lemma_digits_val_none_prefix(d, k + 1);
    }
}

/// Parses a JSON unsigned integer, as [`spec_parse_number`] describes.
pub fn parse_number(s: &Vec<u8>, i: usize) -> (r: Option<(u64, usize)>)
    requires
        i <= s@.len(),
    ensures
        ({
            let m = spec_parse_number(s@, i as int);
            match r {
                Some(p) => m matches Some(q) && p.0 == q.0 && p.1 as int == q.1 && i < p.1
                    <= s@.len(),
                None => m is None,
            }
        }),
{
    let mut j = i;
    while j < s.len() && 0x30 <= s[j] && s[j] <= 0x39
        invariant
            i <= j <= s@.len(),
            spec_skip_digits(s@, i as int) == spec_skip_digits(s@, j as int),
            forall|m: int| i <= m < j ==> is_digit(s@[m]),
        decreases s@.len() - j,
    {
        j = j + 1;
    }
    if j == i {
        return None;
    }
    if s[i] == 0x30 && j > i + 1 {
        return None;
    }
    let ghost d: Seq<u8> = s@.subrange(i as int, j as int);
    let mut acc: u64 = 0;
    let mut k = i;
    while k < j
        invariant
            i <= k <= j <= s@.len(),
            i < j,
            spec_skip_digits(s@, i as int) == j as int,
            !(s@[i as int] == 0x30 && j > i + 1),
            d == s@.subrange(i as int, j as int),
            forall|m: int| i <= m < j ==> is_digit(s@[m]),
            spec_digits_val(d.take(k - i)) == Some(acc),
        decreases j - k,
    {
        let b = s[k];
        let dd: u64 = (b - 0x30) as u64;
        proof {
            assert(d.take(k - i + 1).drop_last() =~= d.take(k - i));
            assert(d.take(k - i + 1).last() == d[k - i]);
            assert(d[k - i] == s@[k as int]);
        }
        if acc > 1844674407370955161u64 || (acc == 1844674407370955161u64 && dd > 5) {
            proof {
                lemma_digits_val_none_prefix(d, k - i + 1);
            }
            return None;
        }
        acc = acc * 10 + dd;
        k = k + 1;
    }
    proof {
        assert(d.take(j - i) =~= d);
    }
    Some((acc, j))
}

/// A JSON scalar as it appears in the records: a string or an unsigned
/// integer. Specification-level mirror of [`JsonScalar`].
pub enum JsonValue {
    Str(Seq<u8>),
    Num(u64),
}

/// A JSON scalar as it appears in the records: the decoded contents of a
/// string, or an unsigned integer.
pub enum JsonScalar {
    Str(Vec<u8>),
    Num(u64),
}

impl View for JsonScalar {
    type V = JsonValue;

    open spec fn view(&self) -> JsonValue {
        match self {
            JsonScalar::Str(v) => JsonValue::Str(v@),
            JsonScalar::Num(n) => JsonValue::Num(*n),
        }
    }
}

/// Parses one `"key": value` object member starting at `i`, whitespace
/// allowed around the tokens. The value is a string or an unsigned integer:
/// nothing else appears in the records this relay carries. Returns the
/// decoded key, the value, and the position just after the value.
pub open spec fn spec_parse_member(s: Seq<u8>, i: int) -> Option<((Seq<u8>, JsonValue), int)> {
    let i1 = spec_skip_ws(s, i);
    if i1 < s.len() && s[i1] == QUOTE {
        match spec_parse_string_rest(s, i1 + 1) {
            Some((key, i2)) => {
                let i3 = spec_skip_ws(s, i2);
                if i3 < s.len() && s[i3] == COLON {
                    let i4 = spec_skip_ws(s, i3 + 1);
                    if i4 < s.len() && s[i4] == QUOTE {
                        match spec_parse_string_rest(s, i4 + 1) {
                            Some((v, i5)) => Some(((key, JsonValue::Str(v)), i5)),
                            None => None,
                        }
                    } else {
                        match spec_parse_number(s, i4) {
                            Some((n, i5)) => Some(((key, JsonValue::Num(n)), i5)),
                            None => None,
                        }
                    }
                } else {
                    None
                }
            },
            None => None,
        }
    } else {
        None
    }
}

/// Parses one object member, as [`spec_parse_member`] describes.
pub fn parse_member(s: &Vec<u8>, i: usize) -> (r: Option<(Vec<u8>, JsonScalar, usize)>)
    requires
        i <= s@.len(),
    ensures
        ({
            let m = spec_parse_member(s@, i as int);
            match r {
                Some(p) => m matches Some(q) && q.0.0 == p.0@ && q.0.1 == p.1@ && q.1 == p.2 as int
                    && i <= p.2 <= s@.len(),
                None => m is None,
            }
        }),
{
    let i1 = skip_ws(s, i);
    if !(i1 < s.len() && s[i1] == QUOTE) {
        return None;
    }
    let (key, i2) = match parse_string_rest(s, i1 + 1) {
        Some(p) => p,
        None => {
            return None;
        },
    };
    let i3 = skip_ws(s, i2);
    if !(i3 < s.len() && s[i3] == COLON) {
        return None;
    }
    let i4 = skip_ws(s, i3 + 1);
    if i4 < s.len() && s[i4] == QUOTE {
        match parse_string_rest(s, i4 + 1) {
            Some((v, i5)) => Some((key, JsonScalar::Str(v), i5)),
            None => None,
        }
    } else {
        match parse_number(s, i4) {
            Some((n, i5)) => Some((key, JsonScalar::Num(n), i5)),
            None => None,
        }
    }
}

/// Bytewise equality of two byte vectors.
pub fn bytes_eq(a: &Vec<u8>, b: &Vec<u8>) -> (r: bool)
    ensures
        r == (a@ == b@),
{
    if a.len() != b.len() {
        return false;
    }
    let mut i: usize = 0;
    while i < a.len()
        invariant
            i <= a@.len(),
            a@.len() == b@.len(),
            forall|m: int| 0 <= m < i ==> a@[m] == b@[m],
        decreases a@.len() - i,
    {
        if a[i] != b[i] {
            return false;
        }
        i = i + 1;
    }
    proof {
        assert(a@ =~= b@);
    }
    true
}

/// ASCII hexadecimal digit (lower case) for a value below 16.
pub open spec fn spec_hex_digit(x: u8) -> u8 {
    if x < 10 {
        (0x30 + x) as u8
    } else {
        (0x61 + (x - 10)) as u8
    }
}

fn hex_digit(x: u8) -> (r: u8)
    requires
        x < 16,
    ensures
        r == spec_hex_digit(x),
{
    if x < 10 {
        0x30 + x
    } else {
        0x61 + (x - 10)
    }
}

/// Encoding of one byte of string contents: the byte itself where JSON
/// allows it raw, a short escape for the common control characters and for
/// `"` and `\`, and `\u00XX` for the remaining control bytes.
pub open spec fn spec_esc_byte(b: u8) -> Seq<u8> {
    if b == QUOTE {
        seq![BACKSLASH, QUOTE]
    } else if b == BACKSLASH {
        seq![BACKSLASH, BACKSLASH]
    } else if b == 0x08 {
        seq![BACKSLASH, 0x62u8]
    } else if b == 0x09 {
        seq![BACKSLASH, 0x74u8]
    } else if b == 0x0a {
        seq![BACKSLASH, 0x6eu8]
    } else if b == 0x0c {
        seq![BACKSLASH, 0x66u8]
    } else if b == 0x0d {
        seq![BACKSLASH, 0x72u8]
    } else if b < 0x20 {
        seq![BACKSLASH, 0x75u8, 0x30u8, 0x30u8, spec_hex_digit(b / 16), spec_hex_digit(b % 16)]
    } else {
        seq![b]
    }
}

/// Escaped encoding of string contents, byte for byte.
pub open spec fn spec_escape(t: Seq<u8>) -> Seq<u8>
    decreases t.len(),
{
    if t.len() == 0 {
        Seq::empty()
    } else {
        spec_esc_byte(t[0]) + spec_escape(t.drop_first())
    }
}

/// A JSON string: quote, escaped contents, quote.
pub open spec fn spec_quoted(t: Seq<u8>) -> Seq<u8> {
    seq![QUOTE] + spec_escape(t) + seq![QUOTE]
}

/// Decimal digits of `n`, most significant first.
pub open spec fn spec_digits(n: u64) -> Seq<u8>
    decreases n,
{
    if n < 10 {
        seq![(0x30 + n) as u8]
    } else {
        spec_digits(n / 10) + seq![(0x30 + n % 10) as u8]
    }
}

/// Wire encoding of a JSON scalar: a quoted string or decimal digits.
pub open spec fn spec_enc_value(v: JsonValue) -> Seq<u8> {
    match v {
        JsonValue::Str(t) => spec_quoted(t),
        JsonValue::Num(n) => spec_digits(n),
    }
}

/// Encoding and decoding of a hexadecimal digit are inverse.
proof fn lemma_hex_val_of_digit(x: u8)
    requires
        x < 16,
    ensures
        spec_hex_val(spec_hex_digit(x)) == Some(x),
{
}

/// A string's escaped encoding, followed by the closing quote, parses back
/// to the string itself: the heart of the codec round trip.
pub proof fn lemma_parse_escaped(t: Seq<u8>, rest: Seq<u8>, s: Seq<u8>, i: int)
    requires
        0 <= i <= s.len(),
        s.skip(i) == spec_escape(t) + seq![QUOTE] + rest,
    ensures
        spec_parse_string_rest(s, i) == Some((t, i + spec_escape(t).len() + 1)),
    decreases t.len(),
{
    if t.len() == 0 {
        assert(s.skip(i).len() == 1 + rest.len());
        assert(s[i] == s.skip(i)[0]);
        assert(s[i] == QUOTE);
        assert(t =~= Seq::<u8>::empty());
    } else {
        let b = t[0];
        let e = spec_esc_byte(b);
        let t1 = t.drop_first();
        assert(spec_escape(t) == e + spec_escape(t1));
        let k = e.len() as int;
        assert(s.skip(i).len() == spec_escape(t).len() + 1 + rest.len());
        assert(i + k <= s.len());
        assert forall|m: int| 0 <= m < k implies s[i + m] == e[m] by {
            assert(s[i + m] == s.skip(i)[m]);
        }
        assert(s.skip(i + k) =~= spec_escape(t1) + seq![QUOTE] + rest) by {
            assert forall|m: int| 0 <= m < s.len() - (i + k) implies s.skip(i + k)[m] == (
            spec_escape(t1) + seq![QUOTE] + rest)[m] by {
                assert(s.skip(i + k)[m] == s.skip(i)[k + m]);
            }
        }
        lemma_parse_escaped(t1, rest, s, i + k);
        assert(t =~= seq![b] + t1);
        if b == QUOTE || b == BACKSLASH {
            assert(s[i] == BACKSLASH);
            assert(s[i + 1] == b);
        } else if b == 0x08 || b == 0x09 || b == 0x0a || b == 0x0c || b == 0x0d {
            assert(s[i] == BACKSLASH);
        } else if b < 0x20 {
            assert(s[i] == BACKSLASH);
            assert(s[i + 1] == 0x75);
            assert(s[i + 4] == spec_hex_digit(b / 16));
            assert(s[i + 5] == spec_hex_digit(b % 16));
            lemma_hex_val_of_digit(b / 16);
            lemma_hex_val_of_digit(b % 16);
            assert(16 * (b / 16) + (b % 16) == b);
        } else {
            assert(s[i] == b);
        }
    }
}

/// Every byte of a decimal encoding is a digit.
proof fn lemma_digits_are_digits(n: u64)
    ensures
        forall|j: int| 0 <= j < spec_digits(n).len() ==> is_digit(#[trigger] spec_digits(n)[j]),
    decreases n,
{
    if n < 10 {
        assert(is_digit(spec_digits(n)[0]));
    } else {
        lemma_digits_are_digits(n / 10);
        let a = spec_digits(n / 10);
        assert forall|j: int| 0 <= j < spec_digits(n).len() implies is_digit(
            #[trigger] spec_digits(n)[j],
        ) by {
            if j < a.len() {
                assert(spec_digits(n)[j] == a[j]);
            } else {
                assert(spec_digits(n)[j] == 0x30 + n % 10);
            }
        }
    }
}

/// The leading digit of a positive number is not `0`.
proof fn lemma_digits_first_nonzero(n: u64)
    requires
        n >= 1,
    ensures
        spec_digits(n)[0] != 0x30,
    decreases n,
{
    if n >= 10 {
        lemma_digits_first_nonzero(n / 10);
    }
}

/// A run of digits followed by a non-digit ends exactly where it should.
proof fn lemma_skip_digits_run(d: Seq<u8>, rest: Seq<u8>, s: Seq<u8>, i: int)
    requires
        0 <= i <= s.len(),
        s.skip(i) == d + rest,
        forall|j: int| 0 <= j < d.len() ==> is_digit(#[trigger] d[j]),
        rest.len() == 0 || !is_digit(rest[0]),
    ensures
        spec_skip_digits(s, i) == i + d.len(),
    decreases d.len(),
{
    assert(s.skip(i).len() == d.len() + rest.len());
    if d.len() == 0 {
        if rest.len() > 0 {
            assert(s[i] == s.skip(i)[0]);
        }
    } else {
        assert(s[i] == s.skip(i)[0]);
        assert(is_digit(s[i]));
        assert(s.skip(i + 1) =~= d.drop_first() + rest) by {
            assert forall|m: int| 0 <= m < s.len() - (i + 1) implies s.skip(i + 1)[m] == (
            d.drop_first() + rest)[m] by {
                assert(s.skip(i + 1)[m] == s.skip(i)[1 + m]);
            }
        }
        lemma_skip_digits_run(d.drop_first(), rest, s, i + 1);
    }
}

/// Decimal encoding and digit-run valuation are inverse.
proof fn lemma_digits_val_of_digits(n: u64)
    ensures
        spec_digits_val(spec_digits(n)) == Some(n),
    decreases n,
{
    if n < 10 {
        let d = spec_digits(n);
        assert(d.drop_last() =~= Seq::<u8>::empty());
        assert(spec_digits_val(Seq::<u8>::empty()) == Some(0u64));
        assert(spec_digits_val(d) == Some(n));
    } else {
        lemma_digits_val_of_digits(n / 10);
        let d = spec_digits(n);
        assert(d.drop_last() =~= spec_digits(n / 10));
        assert(spec_digits_val(d.drop_last()) == Some((n / 10) as u64));
        assert(d.last() == 0x30 + n % 10);
        assert(spec_digits_val(d) == Some(n));
    }
}

/// A number's decimal encoding, followed by anything that is not a digit,
/// parses back to the number itself.
pub proof fn lemma_parse_number_of_digits(n: u64, rest: Seq<u8>, s: Seq<u8>, i: int)
    requires
        0 <= i <= s.len(),
        s.skip(i) == spec_digits(n) + rest,
        rest.len() == 0 || !is_digit(rest[0]),
    ensures
        spec_parse_number(s, i) == Some((n, i + spec_digits(n).len())),
{
    let d = spec_digits(n);
    lemma_digits_are_digits(n);
    lemma_skip_digits_run(d, rest, s, i);
    let j = i + d.len();
    assert(s.skip(i).len() == d.len() + rest.len());
    assert(s[i] == s.skip(i)[0]);
    if n >= 10 {
        lemma_digits_first_nonzero(n);
        assert(s[i] == d[0]);
    }
    assert(s.subrange(i, j) =~= d) by {
        assert forall|m: int| 0 <= m < d.len() implies s.subrange(i, j)[m] == d[m] by {
            assert(s.subrange(i, j)[m] == s.skip(i)[m]);
        }
    }
    lemma_digits_val_of_digits(n);
}

/// One encoded member parses back to its key and value. For a numeric
/// value the member must be followed by something that is not a digit, as
/// it always is inside an object.
pub proof fn lemma_parse_member_of(key: Seq<u8>, v: JsonValue, rest: Seq<u8>, s: Seq<u8>, i: int)
    requires
        0 <= i <= s.len(),
        s.skip(i) == spec_quoted(key) + seq![COLON] + spec_enc_value(v) + rest,
        v matches JsonValue::Num(n) ==> rest.len() > 0 && !is_digit(rest[0]),
    ensures
        spec_parse_member(s, i) == Some(
            ((key, v), i + spec_quoted(key).len() + 1 + spec_enc_value(v).len()),
        ),
{
    let qk = spec_quoted(key);
    let ev = spec_enc_value(v);
    assert(s.skip(i).len() == qk.len() + 1 + ev.len() + rest.len());
    assert(s[i] == s.skip(i)[0]);
    assert(s[i] == QUOTE);
    assert(spec_skip_ws(s, i) == i);
    assert(s.skip(i + 1) =~= spec_escape(key) + seq![QUOTE] + (seq![COLON] + ev + rest)) by {
        assert forall|m: int| 0 <= m < s.len() - (i + 1) implies s.skip(i + 1)[m] == (spec_escape(
            key,
        ) + seq![QUOTE] + (seq![COLON] + ev + rest))[m] by {
            assert(s.skip(i + 1)[m] == s.skip(i)[1 + m]);
        }
    }
    lemma_parse_escaped(key, seq![COLON] + ev + rest, s, i + 1);
    let i2 = i + 1 + spec_escape(key).len() + 1;
    assert(i2 == i + qk.len());
    assert(s[i2] == s.skip(i)[i2 - i]);
    assert(s[i2] == COLON);
    assert(spec_skip_ws(s, i2) == i2);
    let i4 = i2 + 1;
    assert(i4 <= s.len());
    assert(s.skip(i4) =~= ev + rest) by {
        assert forall|m: int| 0 <= m < s.len() - i4 implies s.skip(i4)[m] == (ev + rest)[m] by {
            assert(s.skip(i4)[m] == s.skip(i)[i4 - i + m]);
        }
    }
    match v {
        JsonValue::Str(t) => {
            assert(s[i4] == s.skip(i4)[0]);
            assert(s[i4] == QUOTE);
            assert(spec_skip_ws(s, i4) == i4);
            assert(s.skip(i4 + 1) =~= spec_escape(t) + seq![QUOTE] + rest) by {
                assert forall|m: int| 0 <= m < s.len() - (i4 + 1) implies s.skip(i4 + 1)[m] == (
                spec_escape(t) + seq![QUOTE] + rest)[m] by {
                    assert(s.skip(i4 + 1)[m] == s.skip(i4)[1 + m]);
                }
            }
            lemma_parse_escaped(t, rest, s, i4 + 1);
        },
        JsonValue::Num(n) => {
            lemma_digits_are_digits(n);
            assert(s[i4] == s.skip(i4)[0]);
            assert(s[i4] == spec_digits(n)[0]);
            assert(is_digit(s[i4]));
            assert(s[i4] != QUOTE);
            assert(!is_ws(s[i4]));
            assert(spec_skip_ws(s, i4) == i4);
            lemma_parse_number_of_digits(n, rest, s, i4);
        },
    }
}

fn esc_byte_vec(b: u8) -> (r: Vec<u8>)
    ensures
        r@ == spec_esc_byte(b),
{
    let mut r: Vec<u8> = Vec::new();
    if b == QUOTE || b == BACKSLASH {
        r.push(BACKSLASH);
        r.push(b);
    } else if b == 0x08 {
        r.push(BACKSLASH);
        r.push(0x62);
    } else if b == 0x09 {
        r.push(BACKSLASH);
        r.push(0x74);
    } else if b == 0x0a {
        r.push(BACKSLASH);
        r.push(0x6e);
    } else if b == 0x0c {
        r.push(BACKSLASH);
        r.push(0x66);
    } else if b == 0x0d {
        r.push(BACKSLASH);
        r.push(0x72);
    } else if b < 0x20 {
        r.push(BACKSLASH);
        r.push(0x75);
        r.push(0x30);
        r.push(0x30);
        r.push(hex_digit(b / 16));
        r.push(hex_digit(b % 16));
    } else {
        r.push(b);
    }
    proof {
        assert(r@ =~= spec_esc_byte(b));
    }
    r
}

/// Escapes the contents of `t` from position `from` on.
fn escape_bytes(t: &Vec<u8>, from: usize) -> (r: Vec<u8>)
    requires
        from <= t@.len(),
    ensures
        r@ == spec_escape(t@.skip(from as int)),
    decreases t@.len() - from,
{
    if from == t.len() {
        proof {
            assert(t@.skip(from as int) =~= Seq::<u8>::empty());
        }
        return Vec::new();
    }
    let mut head = esc_byte_vec(t[from]);
    let mut rest = escape_bytes(t, from + 1);
    head.append(&mut rest);
    proof {
        assert(t@.skip(from as int).drop_first() =~= t@.skip(from as int + 1));
        assert(t@.skip(from as int)[0] == t@[from as int]);
    }
    head
}

/// Encodes `t` as a JSON string, as [`spec_quoted`] describes.
pub fn quoted_bytes(t: &Vec<u8>) -> (r: Vec<u8>)
    ensures
        r@ == spec_quoted(t@),
{
    let mut r: Vec<u8> = Vec::new();
    r.push(QUOTE);
    let mut inner = escape_bytes(t, 0);
    r.append(&mut inner);
    r.push(QUOTE);
    proof {
        assert(t@.skip(0) =~= t@);
        assert(r@ =~= spec_quoted(t@));
    }
    r
}

/// Encodes `n` in decimal, as [`spec_digits`] describes.
pub fn digit_bytes(n: u64) -> (r: Vec<u8>)
    ensures
        r@ == spec_digits(n),
    decreases n,
{
    if n < 10 {
        let mut r: Vec<u8> = Vec::new();
        r.push(0x30 + (n as u8));
        proof {
            assert(r@ =~= spec_digits(n));
        }
        r
    } else {
        let mut r = digit_bytes(n / 10);
        r.push(0x30 + ((n % 10) as u8));
        proof {
            assert(r@ =~= spec_digits(n));
        }
        r
    }
}

} // verus!
