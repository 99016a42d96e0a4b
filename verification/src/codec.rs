//! The encoders that turn a screenshot into the text sent for reading:
//! PNG through the `image` crate and standard base64 through the `base64` crate.
use vstd::prelude::*;

verus! {

/// The character of a 6-bit value in the standard base64 alphabet.
pub open spec fn b64_char(v: nat) -> char {
    if v < 26 {
        (65 + v) as char
    } else if v < 52 {
        (97 + v - 26) as char
    } else if v < 62 {
        (48 + v - 52) as char
    } else if v == 62 {
        '+'
    } else {
        '/'
    }
}

/// Standard base64 with `=` padding: every three bytes become four
/// characters; a last group of one or two bytes is padded to four.
pub open spec fn base64_standard(b: Seq<u8>) -> Seq<char>
    decreases b.len(),
{
    if b.len() == 0 {
        Seq::empty()
    } else if b.len() == 1 {
        seq![b64_char((b[0] / 4) as nat), b64_char(((b[0] % 4) * 16) as nat), '=', '=']
    } else if b.len() == 2 {
        seq![
            b64_char((b[0] / 4) as nat),
            b64_char(((b[0] % 4) * 16 + b[1] / 16) as nat),
            b64_char(((b[1] % 16) * 4) as nat),
            '=',
        ]
    } else {
        seq![
            b64_char((b[0] / 4) as nat),
            b64_char(((b[0] % 4) * 16 + b[1] / 16) as nat),
            b64_char(((b[1] % 16) * 4 + b[2] / 64) as nat),
            b64_char((b[2] % 64) as nat),
        ] + base64_standard(b.skip(3))
    }
}

/// The length of the base64 text of `n` bytes.
pub open spec fn base64_len(n: nat) -> nat {
    (n / 3) * 4 + if n % 3 == 0 { 0nat } else { 4nat }
}

/// Base64 text is four characters for every started group of three bytes.
pub proof fn lemma_base64_len(b: Seq<u8>)
    ensures
        base64_standard(b).len() == base64_len(b.len()),
    decreases b.len(),
{
    if b.len() >= 3 {
        lemma_base64_len(b.skip(3));
        assert(base64_len(b.len()) == base64_len((b.len() - 3) as nat) + 4);
    }
}

/// `base64::encode`: standard alphabet with padding. It panics when the
/// length of its output does not fit a `usize`, which `requires` leaves out.
#[verifier::external_body]
pub(crate) fn base64_encode(bytes: &[u8]) -> (s: String)
    requires
        base64_len(bytes@.len()) <= usize::MAX,
    ensures
        s@ == base64_standard(bytes@),
{
    base64::encode(bytes)
}

/// The PNG file that the `image` crate's PNG encoder (fast compression, the
/// `Sub` filter) writes for an 8-bit RGBA image of the given size and pixels.
pub uninterp spec fn png_rgba8(width: u32, height: u32, pixels: Seq<u8>) -> Seq<u8>;

/// `image::codecs::png::PngEncoder::encode` of an 8-bit RGBA image into a
/// fresh buffer, as `DynamicImage::write_to` does for the PNG format. On
/// success the bytes are the named PNG file of the arguments; an error of the
/// encoder gives `None`. With pixels of the right length, the `png` crate's
/// writer refuses an image of height 0 and nothing else: its other errors
/// come from the output, which is a `Vec` and never fails. A width of 0 makes
/// the encoder split its input into empty rows, which panics; `requires`
/// leaves it out.
#[verifier::external_body]
pub(crate) fn png_encode_rgba8(width: u32, height: u32, pixels: &[u8]) -> (r: Option<Vec<u8>>)
    requires
        width > 0,
        pixels@.len() == 4 * (width as int) * (height as int),
    ensures
        r is Some <==> height > 0,
        r matches Some(b) ==> b@ == png_rgba8(width, height, pixels@),
{
    let mut out: Vec<u8> = Vec::new();
    match image::codecs::png::PngEncoder::new(&mut out).encode(pixels, width, height, image::ColorType::Rgba8) {
        Ok(()) => Some(out),
        Err(_) => None,
    }
}

} // verus!
