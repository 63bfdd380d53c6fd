//! Encodings: base64 (through the `base64` crate), percent-encoding (through
//! the `urlencoding` crate), lossy UTF-8 decoding, and decimal and
//! hexadecimal rendering of integers.
use vstd::prelude::*;
use base64::Engine;

verus! {

// ---------------------------------------------------------------
// base64

/// The `base64` crate's general-purpose engines this library uses.
#[derive(Clone, Copy, PartialEq, Eq, Debug)]
pub enum B64Engine {
    /// `general_purpose::STANDARD`: `+` `/` alphabet, padded.
    Standard,
    /// `general_purpose::URL_SAFE`: `-` `_` alphabet, padded.
    UrlSafe,
    /// `general_purpose::URL_SAFE_NO_PAD`: `-` `_` alphabet, no padding.
    UrlSafeNoPad,
}

pub open spec fn engine_is_url(e: B64Engine) -> bool {
    !(e is Standard)
}

pub open spec fn engine_pads(e: B64Engine) -> bool {
    !(e is UrlSafeNoPad)
}

/// The character for a 6-bit value in the standard or URL-safe alphabet.
pub open spec fn b64_char(url: bool, x: int) -> char {
    if x < 26 {
        (65 + x) as char
    } else if x < 52 {
        (97 + x - 26) as char
    } else if x < 62 {
        (48 + x - 52) as char
    } else if x == 62 {
        if url {
            '-'
        } else {
            '+'
        }
    } else if url {
        '_'
    } else {
        '/'
    }
}

/// RFC 4648 base64 of `b`: each group of three bytes becomes four characters;
/// a final group of one or two bytes becomes two or three characters,
/// followed by `=` padding to four when `pad`.
pub open spec fn spec_b64_encode(url: bool, pad: bool, b: Seq<u8>) -> Seq<char>
    decreases b.len(),
{
    if b.len() == 0 {
        seq![]
    } else if b.len() == 1 {
        seq![b64_char(url, (b[0] as int) / 4), b64_char(url, ((b[0] as int) % 4) * 16)] + (if pad {
            seq!['=', '=']
        } else {
            seq![]
        })
    } else if b.len() == 2 {
        seq![
            b64_char(url, (b[0] as int) / 4),
            b64_char(url, ((b[0] as int) % 4) * 16 + (b[1] as int) / 16),
            b64_char(url, ((b[1] as int) % 16) * 4),
        ] + (if pad {
            seq!['=']
        } else {
            seq![]
        })
    } else {
        seq![
            b64_char(url, (b[0] as int) / 4),
            b64_char(url, ((b[0] as int) % 4) * 16 + (b[1] as int) / 16),
            b64_char(url, ((b[1] as int) % 16) * 4 + (b[2] as int) / 64),
            b64_char(url, (b[2] as int) % 64),
        ] + spec_b64_encode(url, pad, b.skip(3))
    }
}

/// Where the input is a whole number of three-byte groups, padding adds
/// nothing.
pub proof fn lemma_b64_no_pad_needed(url: bool, b: Seq<u8>)
    requires
        b.len() % 3 == 0,
    ensures
        spec_b64_encode(url, true, b) == spec_b64_encode(url, false, b),
    decreases b.len(),
{
    if b.len() >= 3 {
        lemma_b64_no_pad_needed(url, b.skip(3));
    }
}

/// Otherwise the padded encoding holds `=`.
pub proof fn lemma_b64_padded(url: bool, b: Seq<u8>)
    requires
        b.len() % 3 != 0,
    ensures
        spec_b64_encode(url, true, b).contains('='),
    decreases b.len(),
{
    let e = spec_b64_encode(url, true, b);
    if b.len() == 1 {
        assert(e[2] == '=');
    } else if b.len() == 2 {
        assert(e[3] == '=');
    } else {
        lemma_b64_padded(url, b.skip(3));
        let rest = spec_b64_encode(url, true, b.skip(3));
        let i = choose|i: int| 0 <= i < rest.len() && rest[i] == '=';
        assert(e[4 + i] == rest[i]);
    }
}

/// Text holding `=` has the byte 61 in its UTF-8 encoding.
pub proof fn lemma_utf8_has_eq_byte(s: Seq<char>)
    requires
        s.contains('='),
    ensures
        vstd::utf8::encode_utf8(s).contains(61u8),
    decreases s.len(),
{
    let e = vstd::utf8::encode_utf8(s);
    let h = vstd::utf8::encode_scalar(s[0] as u32);
    assert(e == h + vstd::utf8::encode_utf8(s.drop_first()));
    if s[0] == '=' {
        assert(('=' as u32) == 61);
        assert((61u32 & 0x7Fu32) as u8 == 61u8) by (bit_vector);
        assert(h == seq![61u8]);
        assert(e[0] == 61u8);
    } else {
        let i = choose|i: int| 0 <= i < s.len() && s[i] == '=';
        assert(s.drop_first()[i - 1] == '=');
        lemma_utf8_has_eq_byte(s.drop_first());
        let t = vstd::utf8::encode_utf8(s.drop_first());
        let j = choose|j: int| 0 <= j < t.len() && t[j] == 61u8;
        assert(e[h.len() + j] == 61u8);
    }
}

/// Calls `Engine::encode` of the chosen engine. The contract states the
/// RFC 4648 encoding in full (the engines use the default, canonical
/// configuration). The bound on the input keeps the crate's output-length
/// computation, which panics on overflow, in range.
#[verifier::external_body]
pub(crate) fn b64_encode(engine: B64Engine, bytes: &[u8]) -> (r: String)
    requires
        bytes@.len() <= usize::MAX / 2,
    ensures
        r@ == spec_b64_encode(engine_is_url(engine), engine_pads(engine), bytes@),
{
    match engine {
        B64Engine::Standard => base64::engine::general_purpose::STANDARD.encode(bytes),
        B64Engine::UrlSafe => base64::engine::general_purpose::URL_SAFE.encode(bytes),
        B64Engine::UrlSafeNoPad => base64::engine::general_purpose::URL_SAFE_NO_PAD.encode(bytes),
    }
}

/// What `Engine::decode` of the engine gives for `input`: the bytes, or
/// `None` where the crate reports a `DecodeError`.
pub uninterp spec fn spec_b64_decode(engine: B64Engine, input: Seq<u8>) -> Option<Seq<u8>>;

pub open spec fn opt_bytes(r: Option<Vec<u8>>) -> Option<Seq<u8>> {
    match r {
        Some(v) => Some(v@),
        None => None,
    }
}

/// Where `input` is the engine's encoding of some bytes (the UTF-8 bytes of
/// the encoded text), `out` is those bytes.
pub open spec fn decodes_own_encoding(engine: B64Engine, input: Seq<u8>, out: Option<Seq<u8>>) -> bool {
    forall|b: Seq<u8>|
        input == vstd::utf8::encode_utf8(
            #[trigger] spec_b64_encode(engine_is_url(engine), engine_pads(engine), b),
        ) ==> out == Some(b)
}

/// Calls `Engine::decode` of the chosen engine. Which inputs are accepted
/// (alphabet, padding, canonical trailing bits) and the bytes produced are
/// left to the name `spec_b64_decode`; the contract ties the result to it,
/// bounds its length by the buffer the crate allocates and truncates
/// (three bytes per started group of four input bytes), and states that the
/// engine's own encoding of some bytes (its ASCII text as bytes) decodes back
/// to those bytes: the engines' configurations are canonical, so what they
/// write they accept. The engine without padding refuses any input holding
/// `=` (an invalid byte inside the data, invalid padding at its end).
#[verifier::external_body]
pub(crate) fn b64_decode(engine: B64Engine, input: &[u8]) -> (r: Option<Vec<u8>>)
    ensures
        r matches Some(v) ==> spec_b64_decode(engine, input@) == Some(v@),
        r matches Some(v) ==> v@.len() <= (input@.len() / 4 + 1) * 3,
        r is None ==> spec_b64_decode(engine, input@) is None,
        decodes_own_encoding(engine, input@, opt_bytes(r)),
        engine is UrlSafeNoPad && input@.contains(61u8) ==> r is None,
{
    match engine {
        B64Engine::Standard => base64::engine::general_purpose::STANDARD.decode(input).ok(),
        B64Engine::UrlSafe => base64::engine::general_purpose::URL_SAFE.decode(input).ok(),
        B64Engine::UrlSafeNoPad => base64::engine::general_purpose::URL_SAFE_NO_PAD.decode(
            input,
        ).ok(),
    }
}

// ---------------------------------------------------------------
// Lossy UTF-8

/// What `String::from_utf8_lossy` gives for `b` (invalid sequences become
/// U+FFFD).
pub uninterp spec fn spec_utf8_lossy(b: Seq<u8>) -> Seq<char>;

/// Calls `String::from_utf8_lossy`. The result is named; on valid UTF-8 it is
/// the decoded text.
#[verifier::external_body]
pub(crate) fn utf8_lossy(b: &[u8]) -> (r: String)
    ensures
        r@ == spec_utf8_lossy(b@),
        vstd::utf8::valid_utf8(b@) ==> r@ == vstd::utf8::decode_utf8(b@),
{
    String::from_utf8_lossy(b).to_string()
}

// ---------------------------------------------------------------
// Percent-encoding

pub open spec fn url_unreserved(b: u8) -> bool {
    (48 <= b <= 57) || (65 <= b <= 90) || (97 <= b <= 122) || b == 45 || b == 46 || b == 95 || b
        == 126
}

pub open spec fn hex_upper_digit(d: int) -> char {
    if d < 10 {
        (48 + d) as char
    } else {
        (65 + d - 10) as char
    }
}

/// Every byte except ASCII letters, digits and `-` `.` `_` `~` becomes `%`
/// and two upper-case hex digits.
pub open spec fn spec_url_encode(b: Seq<u8>) -> Seq<char>
    decreases b.len(),
{
    if b.len() == 0 {
        seq![]
    } else {
        (if url_unreserved(b[0]) {
            seq![b[0] as char]
        } else {
            seq!['%', hex_upper_digit((b[0] as int) / 16), hex_upper_digit((b[0] as int) % 16)]
        }) + spec_url_encode(b.skip(1))
    }
}

/// Calls `urlencoding::encode`, which percent-encodes each UTF-8 byte of `s`
/// as `spec_url_encode` states.
#[verifier::external_body]
pub(crate) fn url_encode(s: &str) -> (r: String)
    ensures
        r@ == spec_url_encode(vstd::utf8::encode_utf8(s@)),
{
    urlencoding::encode(s).into_owned()
}

// ---------------------------------------------------------------
// JSON strings

pub open spec fn hex_lower_digit(d: int) -> char {
    if d < 10 {
        (48 + d) as char
    } else {
        (97 + d - 10) as char
    }
}

/// How one character is written inside a JSON string: `"` and `\` escaped,
/// the short escapes for backspace, tab, newline, form feed and carriage
/// return, `\u00XX` (lower-case hex) for the other control characters below
/// 0x20, and every other character as it is.
pub open spec fn json_escape_char(c: char) -> Seq<char> {
    let u = c as u32;
    if c == '"' {
        seq!['\\', '"']
    } else if c == '\\' {
        seq!['\\', '\\']
    } else if u == 0x08 {
        seq!['\\', 'b']
    } else if u == 0x09 {
        seq!['\\', 't']
    } else if u == 0x0A {
        seq!['\\', 'n']
    } else if u == 0x0C {
        seq!['\\', 'f']
    } else if u == 0x0D {
        seq!['\\', 'r']
    } else if u < 0x20 {
        seq!['\\', 'u', '0', '0', hex_lower_digit((u / 16) as int), hex_lower_digit((u % 16) as int)]
    } else {
        seq![c]
    }
}

pub open spec fn json_escape(s: Seq<char>) -> Seq<char>
    decreases s.len(),
{
    if s.len() == 0 {
        seq![]
    } else {
        json_escape_char(s[0]) + json_escape(s.drop_first())
    }
}

/// `s` as a JSON string literal.
pub open spec fn spec_json_string(s: Seq<char>) -> Seq<char> {
    seq!['"'] + json_escape(s) + seq!['"']
}

/// Calls `serde_json::to_string` on a string, which writes it as a JSON
/// string literal with the escapes `spec_json_string` states (serde_json's
/// escape table; writing a `str` cannot fail).
#[verifier::external_body]
pub(crate) fn json_string(s: &str) -> (r: String)
    ensures
        r@ == spec_json_string(s@),
{
    serde_json::to_string(s).unwrap_or_default()
}

// ---------------------------------------------------------------
// Integers as text

pub open spec fn digit_char(d: int) -> char {
    if d < 10 {
        (48 + d) as char
    } else {
        (97 + d - 10) as char
    }
}

/// `n` in base `base` (2..=16, lower-case digits), without leading zeros;
/// `0` is `"0"`.
pub open spec fn spec_radix(n: nat, base: nat) -> Seq<char>
    decreases n,
{
    if base < 2 || n < base {
        seq![digit_char(n as int)]
    } else {
        proof {
            assert(n / base < n) by (nonlinear_arith)
                requires
                    base >= 2,
                    n >= base,
            ;
        }
        spec_radix(n / base, base).push(digit_char((n % base) as int))
    }
}

pub open spec fn spec_decimal(n: nat) -> Seq<char> {
    spec_radix(n, 10)
}

pub open spec fn spec_hex(n: nat) -> Seq<char> {
    spec_radix(n, 16)
}

fn radix_string(n: u64, base: u64) -> (r: String)
    requires
        2 <= base <= 16,
    ensures
        r@ == spec_radix(n as nat, base as nat),
{
    // digits, least significant first
    let mut ds: Vec<char> = Vec::new();
    let mut m: u64 = n;
    loop
        invariant_except_break
            2 <= base <= 16,
            spec_radix(n as nat, base as nat) == spec_radix(m as nat, base as nat) + ds@.reverse(),
        ensures
            spec_radix(n as nat, base as nat) == ds@.reverse(),
        decreases m,
    {
        let d: u64 = m % base;
        let c: char = if d < 10 {
            ((48 + d) as u8) as char
        } else {
            ((97 + d - 10) as u8) as char
        };
        assert(c == digit_char(d as int));
        let ghost before = ds@;
        ds.push(c);
        assert(ds@.reverse() =~= seq![c] + before.reverse());
        if m < base {
            assert(d == m) by (nonlinear_arith)
                requires
                    d == m % base,
                    m < base,
            ;
            break ;
        }
        let ghost mm = m;
        m = m / base;
        assert(m < mm) by (nonlinear_arith)
            requires
                m == mm / base,
                base >= 2,
                mm >= base,
        ;
        assert(spec_radix(mm as nat, base as nat) == spec_radix(m as nat, base as nat).push(c));
        assert(spec_radix(m as nat, base as nat).push(c) + before.reverse() =~= spec_radix(
            m as nat,
            base as nat,
        ) + ds@.reverse());
    }
    let mut r = String::new();
    let mut i: usize = ds.len();
    let ghost total = ds@.reverse();
    while i > 0
        invariant
            i <= ds@.len(),
            total == ds@.reverse(),
            r@ == total.subrange(0, (ds@.len() - i) as int),
        decreases i,
    {
        i = i - 1;
        crate::text::push_char(&mut r, ds[i]);
        assert(total[(ds@.len() - i - 1) as int] == ds@[i as int]);
        assert(r@ =~= total.subrange(0, (ds@.len() - i) as int));
    }
    assert(total.subrange(0, ds@.len() as int) =~= total);
    r
}

/// `n` in decimal, as `format!("{}", n)` writes it.
pub fn decimal(n: u64) -> (r: String)
    ensures
        r@ == spec_decimal(n as nat),
{
    radix_string(n, 10)
}

/// `n` in lower-case hexadecimal, as `format!("{:x}", n)` writes it.
pub fn hex_lower(n: u64) -> (r: String)
    ensures
        r@ == spec_hex(n as nat),
{
    radix_string(n, 16)
}

} // verus!
