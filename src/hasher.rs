//! Digests and canonical text: decimal numbers, quoted strings and the
//! lowercase hexadecimal SHA-256 digest of a text.
use vstd::prelude::*;
use sha2::Digest;

verus! {

/// Decimal rendering of a natural number, most significant digit first.
pub open spec fn decimal(n: nat) -> Seq<char>
    decreases n,
{
    if n < 10 {
        seq![digit_char(n)]
    } else {
        decimal(n / 10).push(digit_char(n % 10))
    }
}

pub open spec fn digit_char(d: nat) -> char {
    if d == 0 { '0' } else if d == 1 { '1' } else if d == 2 { '2' } else if d == 3 { '3' }
    else if d == 4 { '4' } else if d == 5 { '5' } else if d == 6 { '6' } else if d == 7 { '7' }
    else if d == 8 { '8' } else { '9' }
}

/// A text of `n` characters `'0'`.
pub open spec fn zero_run(n: nat) -> Seq<char> {
    Seq::new(n, |i: int| '0')
}

/// `h` starts with `d` characters `'0'`.
pub open spec fn has_zero_prefix(h: Seq<char>, d: nat) -> bool {
    d <= h.len() && forall|i: int| 0 <= i < d ==> h[i] == '0'
}

/// The lowercase hexadecimal SHA-256 digest of the UTF-8 bytes of a text.
pub uninterp spec fn sha256_hex_of(s: Seq<char>) -> Seq<char>;

/// A lowercase hexadecimal digit.
pub open spec fn hex_digit(d: nat) -> char {
    if d < 10 {
        digit_char(d)
    } else if d == 10 {
        'a'
    } else if d == 11 {
        'b'
    } else if d == 12 {
        'c'
    } else if d == 13 {
        'd'
    } else if d == 14 {
        'e'
    } else {
        'f'
    }
}

pub open spec fn is_lower_hex(c: char) -> bool {
    ('0' <= c && c <= '9') || ('a' <= c && c <= 'f')
}

/// How one character stands inside a JSON string literal: quote and
/// backslash escaped, five control characters by their short escapes, the
/// other control characters as `\u00XX`, everything else as it is.
pub open spec fn json_escape(c: char) -> Seq<char> {
    if c == '"' {
        seq!['\\', '"']
    } else if c == '\\' {
        seq!['\\', '\\']
    } else if c == '\x08' {
        seq!['\\', 'b']
    } else if c == '\t' {
        seq!['\\', 't']
    } else if c == '\n' {
        seq!['\\', 'n']
    } else if c == '\x0C' {
        seq!['\\', 'f']
    } else if c == '\r' {
        seq!['\\', 'r']
    } else if (c as u32) < 0x20 {
        seq!['\\', 'u', '0', '0', hex_digit((c as u32 / 16) as nat), hex_digit((c as u32 % 16) as nat)]
    } else {
        seq![c]
    }
}

/// The characters of `s`, each escaped for a JSON string literal.
pub open spec fn json_escaped(s: Seq<char>) -> Seq<char>
    decreases s.len(),
{
    if s.len() == 0 {
        Seq::empty()
    } else {
        json_escaped(s.drop_last()) + json_escape(s.last())
    }
}

/// A text written as a JSON string literal.
pub open spec fn json_quoted_of(s: Seq<char>) -> Seq<char> {
    seq!['"'] + json_escaped(s) + seq!['"']
}

/// Relies on sha2::Sha256 for the digest of the text's bytes, and on
/// generic_array's `LowerHex`, which writes two lowercase digits per byte
/// (32 bytes, so 64 digits).
#[verifier::external_body]
pub(crate) fn sha256_hex(data: &String) -> (r: String)
    ensures
        r@ == sha256_hex_of(data@),
        r@.len() == 64,
        forall|i: int| 0 <= i < 64 ==> is_lower_hex(#[trigger] r@[i]),
{
    let mut hasher = sha2::Sha256::new();
    hasher.update(data.as_bytes());
    format!("{:x}", hasher.finalize())
}

/// Relies on serde_json::to_string on a `str`: the text in quotes, escaped by
/// serde_json's escape table. Serialising a `str` has no failure case.
#[verifier::external_body]
pub(crate) fn json_quoted(s: &str) -> (r: String)
    ensures
        r@ == json_quoted_of(s@),
{
    match serde_json::to_string(s) {
        Ok(q) => q,
        Err(_) => String::new(),
    }
}

fn digit_str(d: u64) -> (r: &'static str)
    requires
        d < 10,
    ensures
        r@ == seq![digit_char(d as nat)],
{
    proof {
        reveal_strlit("0");
        reveal_strlit("1");
        reveal_strlit("2");
        reveal_strlit("3");
        reveal_strlit("4");
        reveal_strlit("5");
        reveal_strlit("6");
        reveal_strlit("7");
        reveal_strlit("8");
        reveal_strlit("9");
    }
    if d == 0 { "0" } else if d == 1 { "1" } else if d == 2 { "2" } else if d == 3 { "3" }
    else if d == 4 { "4" } else if d == 5 { "5" } else if d == 6 { "6" } else if d == 7 { "7" }
    else if d == 8 { "8" } else { "9" }
}

/// The decimal text of `n`.
pub fn decimal_string(n: u64) -> (r: String)
    ensures
        r@ == decimal(n as nat),
    decreases n,
{
    if n < 10 {
        String::from_str(digit_str(n))
    } else {
        let mut s = decimal_string(n / 10);
        s.append(digit_str(n % 10));
        s
    }
}

/// A text of `n` characters `'0'`.
pub fn zeros(n: usize) -> (r: String)
    ensures
        r@ == zero_run(n as nat),
{
    proof {
        reveal_strlit("0");
    }
    let mut s = String::new();
    let mut i: usize = 0;
    while i < n
        invariant
            i <= n,
            s@ == zero_run(i as nat),
        decreases n - i,
    {
        proof {
            reveal_strlit("0");
        }
        s.append("0");
        i = i + 1;
        assert(s@ =~= zero_run(i as nat));
    }
    s
}

/// Whether `hash` starts with `difficulty` characters `'0'`.
pub fn meets_difficulty(hash: &String, difficulty: u64) -> (r: bool)
    ensures
        r == has_zero_prefix(hash@, difficulty as nat),
{
    let len = hash.as_str().unicode_len();
    if difficulty > len as u64 {
        return false;
    }
    let d = difficulty as usize;
    let mut i: usize = 0;
    while i < d
        invariant
            d == difficulty,
            d <= hash@.len(),
            i <= d,
            forall|k: int| 0 <= k < i ==> hash@[k] == '0',
        decreases d - i,
    {
        if hash.as_str().get_char(i) != '0' {
            return false;
        }
        i = i + 1;
    }
    true
}

} // verus!
