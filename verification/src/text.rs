//! Text helpers: the lossy UTF-8 decoding that controller strings go through,
//! and lower-case hexadecimal rendering of bytes for error messages.
use vstd::prelude::*;
use vstd::utf8::{decode_utf8, valid_utf8};

verus! {

/// What `String::from_utf8_lossy` makes of `bytes`: a function of the bytes
/// alone.
pub uninterp spec fn utf8_lossy(bytes: Seq<u8>) -> Seq<char>;

/// Decodes controller text with `String::from_utf8_lossy`. Trusted: the
/// result is the named decoding of the bytes, and where the bytes are valid
/// UTF-8 it is exactly the decoded text, as std documents. What replaces an
/// invalid sequence is left to the name.
#[verifier::external_body]
pub(crate) fn lossy_text(bytes: &[u8]) -> (out: String)
    ensures
        out@ == utf8_lossy(bytes@),
        valid_utf8(bytes@) ==> out@ == decode_utf8(bytes@),
{
    String::from_utf8_lossy(bytes).to_string()
}

/// The lower-case hexadecimal digit of a value below 16.
pub open spec fn hex_digit(d: int) -> char {
    seq!['0', '1', '2', '3', '4', '5', '6', '7', '8', '9', 'a', 'b', 'c', 'd', 'e', 'f'][d]
}

/// The two lower-case hexadecimal digits of a byte (`{:02x}`).
pub open spec fn hex_byte(b: u8) -> Seq<char> {
    seq![hex_digit(b as int / 16), hex_digit(b as int % 16)]
}

/// Renders a byte as two lower-case hexadecimal digits.
pub fn format_hex_byte(b: u8) -> (out: String)
    ensures
        out@ == hex_byte(b),
{
    let digits = "0123456789abcdef";
    proof {
        reveal_strlit("0123456789abcdef");
    }
    let hi: usize = (b / 16) as usize;
    let lo: usize = (b % 16) as usize;
    let mut out = String::new();
    out.append(digits.substring_char(hi, hi + 1));
    out.append(digits.substring_char(lo, lo + 1));
    assert(out@ =~= hex_byte(b));
    out
}

} // verus!
