//! Text column decoding: UTF-16LE / single-byte detection, lossy decoding and
//! trailing-NUL trimming.

use vstd::prelude::*;

use crate::bytes::{le16, u16_at};
use crate::coltyp;
use crate::value::{EseValue, ValueModel};

verus! {

/// The characters that `String::from_utf8_lossy` makes of `bytes`.
pub uninterp spec fn utf8_lossy(bytes: Seq<u8>) -> Seq<char>;

/// UTF-16 decoding with replacement: a unit outside the surrogate range is
/// its own character; a high surrogate followed by a low surrogate is the
/// supplementary character they encode; any other surrogate becomes U+FFFD,
/// and decoding goes on with the next unit.
pub open spec fn utf16_lossy(u: Seq<u16>) -> Seq<char>
    decreases u.len(),
{
    if u.len() == 0 {
        Seq::empty()
    } else if u[0] < 0xD800 || u[0] > 0xDFFF {
        seq![u[0] as char] + utf16_lossy(u.drop_first())
    } else if u[0] <= 0xDBFF && u.len() >= 2 && 0xDC00 <= u[1] <= 0xDFFF {
        seq![(0x10000 + (u[0] - 0xD800) * 0x400 + (u[1] - 0xDC00)) as char] + utf16_lossy(
            u.subrange(2, u.len() as int),
        )
    } else {
        seq!['\u{FFFD}'] + utf16_lossy(u.drop_first())
    }
}

/// Every byte of `b` is ASCII.
pub open spec fn is_ascii_bytes(b: Seq<u8>) -> bool {
    forall|i: int| 0 <= i < b.len() ==> b[i] < 0x80
}

/// The characters that ASCII bytes stand for.
pub open spec fn ascii_chars(b: Seq<u8>) -> Seq<char> {
    b.map_values(|x: u8| x as char)
}

/// Calls `String::from_utf8_lossy` (std): decodes `bytes` as UTF-8, each
/// invalid sequence becoming U+FFFD. The contract claims that the characters
/// returned are `utf8_lossy` of the bytes (a function of them alone) and that
/// ASCII bytes, being valid UTF-8, come back as the same characters; what
/// other byte sequences decode to is left unsaid.
#[verifier::external_body]
fn utf8_lossy_chars(bytes: &[u8]) -> (r: Vec<char>)
    ensures
        r@ == utf8_lossy(bytes@),
        is_ascii_bytes(bytes@) ==> r@ == ascii_chars(bytes@),
{
    String::from_utf8_lossy(bytes).chars().collect()
}

/// Calls `String::from_utf16_lossy` (std): decodes `units` as UTF-16, each
/// unpaired surrogate becoming U+FFFD. The contract claims that the
/// characters returned are those [`utf16_lossy`] states.
#[verifier::external_body]
fn utf16_lossy_chars(units: &[u16]) -> (r: Vec<char>)
    ensures
        r@ == utf16_lossy(units@),
{
    String::from_utf16_lossy(units).chars().collect()
}

/// Collects `chars` into a `String` (std `FromIterator<&char> for String`):
/// the string holds exactly those characters, in order.
#[verifier::external_body]
fn string_from_chars(chars: &[char]) -> (s: String)
    ensures
        s@ == chars@,
{
    chars.iter().collect()
}

/// `s` without its trailing `'\0'` characters.
pub open spec fn trim_nul(s: Seq<char>) -> Seq<char>
    decreases s.len(),
{
    if s.len() > 0 && s.last() == '\0' {
        trim_nul(s.drop_last())
    } else {
        s
    }
}

/// How many of the first `n` byte pairs of `b` have a zero high (odd) byte.
pub open spec fn zero_high_bytes(b: Seq<u8>, n: nat) -> nat
    decreases n,
{
    if n == 0 {
        0
    } else {
        zero_high_bytes(b, (n - 1) as nat) + if b[2 * (n - 1) + 1] == 0 {
            1nat
        } else {
            0nat
        }
    }
}

/// Even-length bytes where at least half the high bytes (odd indices) are NUL
/// are taken to be UTF-16LE text.
pub open spec fn utf16_like(b: Seq<u8>) -> bool {
    &&& b.len() >= 2
    &&& b.len() % 2 == 0
    &&& 2 * zero_high_bytes(b, b.len() / 2) >= b.len() / 2
}

/// The little-endian 16-bit units of `b` (a trailing odd byte is dropped).
pub open spec fn utf16_units(b: Seq<u8>) -> Seq<u16> {
    Seq::new(b.len() / 2, |k: int| le16(b[2 * k], b[2 * k + 1]))
}

/// The text an ESE text value holds: UTF-16LE or single-byte by
/// [`utf16_like`], lossily decoded, trailing NULs removed.
pub open spec fn ese_text(b: Seq<u8>) -> Seq<char> {
    if utf16_like(b) {
        trim_nul(utf16_lossy(utf16_units(b)))
    } else {
        trim_nul(utf8_lossy(b))
    }
}

/// The value of a variable or tagged column of type `t` holding `b`.
pub open spec fn var_value(b: Seq<u8>, t: u8) -> ValueModel {
    if t == coltyp::TEXT || t == coltyp::LONG_TEXT {
        ValueModel::Text(ese_text(b))
    } else {
        ValueModel::Binary(b)
    }
}

proof fn lemma_zero_high_bytes_bounds(b: Seq<u8>, n: nat)
    requires
        2 * n <= b.len(),
    ensures
        (forall|k: int| 0 <= k < n ==> #[trigger] b[2 * k + 1] == 0) ==> zero_high_bytes(b, n) == n,
        (forall|k: int| 0 <= k < n ==> #[trigger] b[2 * k + 1] != 0) ==> zero_high_bytes(b, n) == 0,
    decreases n,
{
    if n > 0 {
        lemma_zero_high_bytes_bounds(b, (n - 1) as nat);
        let m = (n - 1) as int;
        assert(b[2 * m + 1] == b[2 * m + 1]);
    }
}

/// Latin-script UTF-16LE — an even number of at least two bytes, every high
/// (odd) byte NUL — is taken for UTF-16; bytes of which no high byte is NUL
/// never are.
pub proof fn law_utf16_detection(b: Seq<u8>)
    ensures
        b.len() >= 2 && b.len() % 2 == 0 && (forall|k: int|
            0 <= k < b.len() / 2 ==> #[trigger] b[2 * k + 1] == 0) ==> utf16_like(b),
        b.len() >= 2 && (forall|k: int| 0 <= k < b.len() / 2 ==> #[trigger] b[2 * k + 1] != 0)
            ==> !utf16_like(b),
{
    lemma_zero_high_bytes_bounds(b, b.len() / 2);
}

/// Trimming removes exactly the trailing NULs: the result is a prefix of the
/// input that does not end in a NUL, and everything cut off is NUL.
pub proof fn law_trim_nul(s: Seq<char>)
    ensures
        trim_nul(s).len() <= s.len(),
        trim_nul(s) == s.subrange(0, trim_nul(s).len() as int),
        trim_nul(s).len() > 0 ==> trim_nul(s).last() != '\0',
        forall|j: int| trim_nul(s).len() <= j < s.len() ==> s[j] == '\0',
    decreases s.len(),
{
    if s.len() > 0 && s.last() == '\0' {
        law_trim_nul(s.drop_last());
        assert(s.drop_last().subrange(0, trim_nul(s).len() as int) =~= s.subrange(
            0,
            trim_nul(s).len() as int,
        ));
        assert forall|j: int| trim_nul(s).len() <= j < s.len() implies s[j] == '\0' by {
            if j < s.len() - 1 {
                assert(s[j] == s.drop_last()[j]);
            }
        }
    } else {
        assert(s.subrange(0, s.len() as int) =~= s);
    }
}

/// Heuristic: even-length bytes where at least half the high bytes (odd
/// indices) are NUL indicate UTF-16LE-encoded Latin-script text.
pub fn looks_like_utf16le(bytes: &[u8]) -> (r: bool)
    ensures
        r == utf16_like(bytes@),
{
    let len = bytes.len();
    if len < 2 || len % 2 != 0 {
        return false;
    }
    let pairs = len / 2;
    let mut high_nuls: usize = 0;
    let mut k: usize = 0;
    while k < pairs
        invariant
            k <= pairs,
            pairs == len / 2,
            len == bytes@.len(),
            len % 2 == 0,
            high_nuls == zero_high_bytes(bytes@, k as nat),
            high_nuls <= k,
        decreases pairs - k,
    {
        if bytes[2 * k + 1] == 0 {
            high_nuls = high_nuls + 1;
        }
        k = k + 1;
    }
    high_nuls * 2 >= pairs
}

/// The little-endian 16-bit units of `bytes`.
fn units_of(bytes: &[u8]) -> (r: Vec<u16>)
    ensures
        r@ == utf16_units(bytes@),
{
    let len = bytes.len();
    let pairs = len / 2;
    let mut units: Vec<u16> = Vec::new();
    let mut k: usize = 0;
    while k < pairs
        invariant
            k <= pairs,
            pairs == len / 2,
            len == bytes@.len(),
            units@ =~= utf16_units(bytes@).subrange(0, k as int),
        decreases pairs - k,
    {
        units.push(u16_at(bytes, 2 * k));
        k = k + 1;
    }
    units
}

/// `chars` without trailing `'\0'`, as a `String`.
fn trim_trailing_nuls(chars: &[char]) -> (s: String)
    ensures
        s@ == trim_nul(chars@),
{
    let mut n = chars.len();
    assert(chars@.subrange(0, n as int) =~= chars@);
    while n > 0 && chars[n - 1] == '\0'
        invariant
            n <= chars@.len(),
            trim_nul(chars@.subrange(0, n as int)) == trim_nul(chars@),
        decreases n,
    {
        assert(chars@.subrange(0, n as int).drop_last() =~= chars@.subrange(0, n - 1));
        n = n - 1;
    }
    assert(chars@.subrange(0, n as int) == trim_nul(chars@.subrange(0, n as int)));
    string_from_chars(&chars[0..n])
}

/// Decode an ESE text value, auto-detecting UTF-16LE vs single-byte text.
pub fn decode_ese_text(bytes: &[u8]) -> (s: String)
    ensures
        s@ == ese_text(bytes@),
        is_ascii_bytes(bytes@) && !utf16_like(bytes@) ==> s@ == trim_nul(ascii_chars(bytes@)),
{
    let chars = if looks_like_utf16le(bytes) {
        let units = units_of(bytes);
        utf16_lossy_chars(units.as_slice())
    } else {
        utf8_lossy_chars(bytes)
    };
    trim_trailing_nuls(chars.as_slice())
}

/// Lossily decode `bytes` as UTF-8 into a `String`.
pub fn utf8_lossy_string(bytes: &[u8]) -> (s: String)
    ensures
        s@ == utf8_lossy(bytes@),
        is_ascii_bytes(bytes@) ==> s@ == ascii_chars(bytes@),
{
    let chars = utf8_lossy_chars(bytes);
    string_from_chars(chars.as_slice())
}

/// Decode a variable/tagged column value slice by coltyp.
pub fn decode_variable_or_tagged(bytes: &[u8], coltyp: u8) -> (v: EseValue)
    ensures
        v@ == var_value(bytes@, coltyp),
{
    if coltyp == coltyp::TEXT || coltyp == coltyp::LONG_TEXT {
        EseValue::Text(decode_ese_text(bytes))
    } else {
        EseValue::Binary(vstd::slice::slice_to_vec(bytes))
    }
}

} // verus!
