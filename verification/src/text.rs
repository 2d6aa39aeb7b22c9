//! Character and string helpers: comparison, case mapping, decimal and
//! hexadecimal formatting, and JSON text components.
use vstd::prelude::*;

verus! {

/// Whether two string slices hold the same characters: their UTF-8 bytes are
/// compared one by one, and equal encodings come from equal texts.
pub(crate) fn str_eq(a: &str, b: &str) -> (r: bool)
    ensures
        r == (a@ == b@),
{
    let x = a.as_bytes();
    let y = b.as_bytes();
    proof {
        vstd::utf8::encode_utf8_decode_utf8(a@);
        vstd::utf8::encode_utf8_decode_utf8(b@);
    }
    if x.len() != y.len() {
        return false;
    }
    let n = x.len();
    let mut i: usize = 0;
    while i < n
        invariant
            n == x@.len() == y@.len(),
            x@ == vstd::utf8::encode_utf8(a@),
            y@ == vstd::utf8::encode_utf8(b@),
            i <= n,
            forall|j: int| 0 <= j < i ==> x@[j] == y@[j],
        decreases n - i,
    {
        if x[i] != y[i] {
            return false;
        }
        i = i + 1;
    }
    assert(x@ =~= y@);
    true
}

/// Appends one character (`String::push`).
/// The contract claims that the new text is the old text followed by `c`.
#[verifier::external_body]
pub(crate) fn push_char(s: &mut String, c: char)
    ensures
        final(s)@ == old(s)@.push(c),
{
    s.push(c)
}

/// The characters that `char::to_uppercase` yields for `c`.
pub uninterp spec fn char_upper(c: char) -> Seq<char>;

/// True for the ASCII letters `a` to `z`.
pub open spec fn is_ascii_lower(c: char) -> bool {
    'a' <= c && c <= 'z'
}

/// The uppercase mapping of an ASCII character: letters are shifted, all else stays.
pub open spec fn ascii_upper(c: char) -> char {
    if is_ascii_lower(c) {
        ((c as u32) - 32) as char
    } else {
        c
    }
}

/// Collects `char::to_uppercase(c)` into a string.
/// The contract names the result `char_upper(c)`, states the Unicode mapping for ASCII
/// characters (a single character, shifted for `a` to `z`), and claims that the
/// uppercase form of any character other than `_` holds no `_`: std takes the mapping
/// from Unicode's case tables (UnicodeData.txt and SpecialCasing.txt), in which no
/// character maps to LOW LINE, and `_` itself has no mapping. Beyond that it only
/// names the result.
#[verifier::external_body]
pub(crate) fn to_uppercase_string(c: char) -> (r: String)
    ensures
        r@ == char_upper(c),
        (c as u32) < 128 ==> r@ == seq![ascii_upper(c)],
        c != '_' ==> !r@.contains('_'),
{
    c.to_uppercase().collect()
}

/// The lowercase hexadecimal digit for `d` (0 to 15).
pub open spec fn hex_char(d: int) -> char {
    if d < 10 {
        (48 + d) as char
    } else {
        (87 + d) as char
    }
}

/// The decimal digit for `d` (0 to 9).
pub open spec fn digit_char(d: int) -> char {
    (48 + d) as char
}

/// Decimal notation of a natural number, without leading zeros.
pub open spec fn nat_decimal(n: nat) -> Seq<char>
    decreases n,
{
    if n < 10 {
        seq![digit_char(n as int)]
    } else {
        nat_decimal(n / 10).push(digit_char((n % 10) as int))
    }
}

/// Decimal notation of an integer, with a leading `-` when negative.
pub open spec fn int_decimal(v: int) -> Seq<char> {
    if v < 0 {
        seq!['-'] + nat_decimal((-v) as nat)
    } else {
        nat_decimal(v as nat)
    }
}

/// `n` lowercase hexadecimal digits of `v` (most significant first, zero padded,
/// only the low `4 * n` bits).
pub open spec fn hex_digits(v: nat, n: nat) -> Seq<char>
    decreases n,
{
    if n == 0 {
        Seq::empty()
    } else {
        hex_digits(v / 16, (n - 1) as nat).push(hex_char((v % 16) as int))
    }
}

fn decimal_digit(d: u64) -> (c: char)
    requires
        d < 10,
    ensures
        c == digit_char(d as int),
{
    let b: u8 = 48u8 + (d as u8);
    b as char
}

fn hex_digit(d: u64) -> (c: char)
    requires
        d < 16,
    ensures
        c == hex_char(d as int),
{
    if d < 10 {
        let b: u8 = 48u8 + (d as u8);
        b as char
    } else {
        let b: u8 = 87u8 + (d as u8);
        b as char
    }
}

/// Writes a natural number in decimal.
pub fn u64_to_decimal(n: u64) -> (s: String)
    ensures
        s@ == nat_decimal(n as nat),
    decreases n,
{
    if n < 10 {
        let mut s = String::new();
        push_char(&mut s, decimal_digit(n));
        s
    } else {
        let mut s = u64_to_decimal(n / 10);
        push_char(&mut s, decimal_digit(n % 10));
        s
    }
}

/// Writes an integer in decimal, as `i64::to_string` does.
pub fn i64_to_decimal(v: i64) -> (s: String)
    ensures
        s@ == int_decimal(v as int),
{
    if v < 0 {
        let wide: i128 = v as i128;
        let magnitude: u64 = (0i128 - wide) as u64;
        let digits = u64_to_decimal(magnitude);
        let mut s = String::new();
        push_char(&mut s, '-');
        s.append(digits.as_str());
        assert(s@ =~= seq!['-'] + nat_decimal((-v) as nat));
        s
    } else {
        u64_to_decimal(v as u64)
    }
}

/// Appends `n` lowercase hexadecimal digits of `v` to `s`.
pub fn push_hex_digits(s: &mut String, v: u64, n: u64)
    requires
        n <= 16,
    ensures
        final(s)@ == old(s)@ + hex_digits(v as nat, n as nat),
    decreases n,
{
    if n == 0 {
        assert(old(s)@ + hex_digits(v as nat, 0) =~= old(s)@);
    } else {
        push_hex_digits(s, v / 16, n - 1);
        push_hex_digits_last(s, v);
        assert(hex_digits(v as nat, n as nat) == hex_digits((v / 16) as nat, (n - 1) as nat).push(
            hex_char((v % 16) as int),
        ));
        assert(old(s)@ + hex_digits(v as nat, n as nat) =~= old(s)@ + hex_digits(
            (v / 16) as nat,
            (n - 1) as nat,
        ) + seq![hex_char((v % 16) as int)]);
    }
}

fn push_hex_digits_last(s: &mut String, v: u64)
    ensures
        final(s)@ == old(s)@ + seq![hex_char((v % 16) as int)],
{
    push_char(s, hex_digit(v % 16));
    assert(old(s)@.push(hex_char((v % 16) as int)) =~= old(s)@ + seq![hex_char((v % 16) as int)]);
}

/// The JSON escape of one character inside a string literal, as serde_json writes it:
/// quote and backslash are escaped, the control characters below 0x20 get their short
/// form or `\u00XX` with lowercase hexadecimal digits, everything else stays.
pub open spec fn json_escape_char(c: char) -> Seq<char> {
    let n = c as u32;
    if c == '"' {
        seq!['\\', '"']
    } else if c == '\\' {
        seq!['\\', '\\']
    } else if n == 8 {
        seq!['\\', 'b']
    } else if n == 9 {
        seq!['\\', 't']
    } else if n == 10 {
        seq!['\\', 'n']
    } else if n == 12 {
        seq!['\\', 'f']
    } else if n == 13 {
        seq!['\\', 'r']
    } else if n < 32 {
        seq!['\\', 'u', '0', '0', hex_char((n / 16) as int), hex_char((n % 16) as int)]
    } else {
        seq![c]
    }
}

/// The JSON escape of a whole text.
pub open spec fn json_escape(s: Seq<char>) -> Seq<char>
    decreases s.len(),
{
    if s.len() == 0 {
        Seq::empty()
    } else {
        json_escape(s.drop_last()) + json_escape_char(s.last())
    }
}

/// The compact JSON text of the object `{"text": s}`.
pub open spec fn json_text_object(s: Seq<char>) -> Seq<char> {
    seq!['{', '"', 't', 'e', 'x', 't', '"', ':', '"'] + json_escape(s) + seq!['"', '}']
}

/// The JSON string literal for `s`: quoted, and escaped as serde_json escapes.
pub open spec fn json_string_literal(s: Seq<char>) -> Seq<char> {
    seq!['"'] + json_escape(s) + seq!['"']
}

/// Serialises a string as a JSON string with serde_json (compact `Display` of a
/// `serde_json::Value::String`).
/// The contract claims what serde_json's serializer writes: the text between double
/// quotes, escaped by serde_json's escape table.
#[verifier::external_body]
fn json_string(text: &str) -> (r: String)
    ensures
        r@ == json_string_literal(text@),
{
    serde_json::Value::String(text.to_string()).to_string()
}

/// The compact JSON text of the object `{"text": text}`.
pub(crate) fn json_text(text: &str) -> (r: String)
    ensures
        r@ == json_text_object(text@),
{
    let mut r = string_of("{\"text\":");
    let lit = json_string(text);
    append(&mut r, lit.as_str());
    append(&mut r, "}");
    proof {
        reveal_strlit("{\"text\":");
        reveal_strlit("}");
        assert(r@ =~= json_text_object(text@));
    }
    r
}

/// Builds an owned string from a slice.
pub fn string_of(s: &str) -> (r: String)
    ensures
        r@ == s@,
{
    String::from_str(s)
}

/// Concatenates three slices.
pub fn concat3(a: &str, b: &str, c: &str) -> (r: String)
    ensures
        r@ == a@ + b@ + c@,
{
    let mut r = String::from_str(a);
    r.append(b);
    r.append(c);
    r
}

/// Appends `t` to `s`.
pub fn append(s: &mut String, t: &str)
    ensures
        final(s)@ == old(s)@ + t@,
{
    s.append(t);
}

/// `a` followed by `b`.
pub fn concat2(a: &str, b: &str) -> (r: String)
    ensures
        r@ == a@ + b@,
{
    let mut r = String::from_str(a);
    r.append(b);
    r
}

/// Whether `s` starts with the character `c`.
pub fn starts_with_char(s: &str, c: char) -> (r: bool)
    ensures
        r == (s@.len() > 0 && s@[0] == c),
{
    if s.unicode_len() == 0 {
        false
    } else {
        s.get_char(0) == c
    }
}

/// Whether `s` contains the character `c`.
pub fn contains_char(s: &str, c: char) -> (r: bool)
    ensures
        r == s@.contains(c),
{
    let n = s.unicode_len();
    let mut i: usize = 0;
    while i < n
        invariant
            n == s@.len(),
            i <= n,
            forall|j: int| 0 <= j < i ==> s@[j] != c,
        decreases n - i,
    {
        if s.get_char(i) == c {
            return true;
        }
        i = i + 1;
    }
    false
}

/// Whether `s` ends with `suffix`.
pub fn ends_with(s: &str, suffix: &str) -> (r: bool)
    ensures
        r == (suffix@.len() <= s@.len() && s@.subrange(s@.len() - suffix@.len(), s@.len() as int)
            == suffix@),
{
    let n = s.unicode_len();
    let m = suffix.unicode_len();
    if m > n {
        return false;
    }
    let mut i: usize = 0;
    while i < m
        invariant
            n == s@.len(),
            m == suffix@.len(),
            m <= n,
            i <= m,
            forall|j: int| 0 <= j < i ==> s@[n - m + j] == suffix@[j],
        decreases m - i,
    {
        if s.get_char(n - m + i) != suffix.get_char(i) {
            assert(s@.subrange(n - m, n as int)[i as int] != suffix@[i as int]);
            return false;
        }
        i = i + 1;
    }
    assert(s@.subrange(n - m, n as int) =~= suffix@);
    true
}

/// Removes `prefix` from the front of `s` when it is there (`str::strip_prefix`,
/// falling back to the whole text).
pub fn strip_prefix_or_self(s: &str, prefix: &str) -> (r: String)
    ensures
        r@ == (if prefix@.len() <= s@.len() && s@.subrange(0, prefix@.len() as int) == prefix@ {
            s@.subrange(prefix@.len() as int, s@.len() as int)
        } else {
            s@
        }),
{
    let n = s.unicode_len();
    let m = prefix.unicode_len();
    if m > n {
        return String::from_str(s);
    }
    let mut i: usize = 0;
    while i < m
        invariant
            n == s@.len(),
            m == prefix@.len(),
            m <= n,
            i <= m,
            forall|j: int| 0 <= j < i ==> s@[j] == prefix@[j],
        decreases m - i,
    {
        if s.get_char(i) != prefix.get_char(i) {
            assert(s@.subrange(0, m as int)[i as int] != prefix@[i as int]);
            return String::from_str(s);
        }
        i = i + 1;
    }
    assert(s@.subrange(0, m as int) =~= prefix@);
    let rest = s.substring_char(m, n);
    String::from_str(rest)
}

} // verus!
