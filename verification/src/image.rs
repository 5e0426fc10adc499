//! Image payloads and their pixel dimensions.
use vstd::prelude::*;

use crate::protocol::{KittyControl, KittyFormat};

verus! {

/// What `base64::decode` makes of a byte string: the decoded bytes, or nothing
/// where it reports an error.
pub uninterp spec fn base64_decoded(b64: Seq<u8>) -> Option<Seq<u8>>;

/// The bytes of an optional payload.
pub open spec fn bytes_of(bytes: Option<Vec<u8>>) -> Option<Seq<u8>> {
    match bytes {
        Some(bytes) => Some(bytes@),
        None => None,
    }
}

/// Decodes base64 in the standard alphabet by `base64::decode`, whose error is
/// dropped. That function is believed to depend on the input bytes alone. It
/// returns on every slice: the additions that it guards with `expect` stay in
/// range up to `isize::MAX` bytes, which no slice exceeds. Which byte strings
/// it accepts, and what they decode to, is left to that crate.
#[verifier::external_body]
fn base64_decode(b64: &[u8]) -> (r: Option<Vec<u8>>)
    ensures
        bytes_of(r) == base64_decoded(b64@),
{
    base64::decode(b64).ok()
}

/// The first eight bytes of every PNG file.
pub open spec fn png_signature() -> Seq<u8> {
    seq![0x89u8, 0x50u8, 0x4eu8, 0x47u8, 0x0du8, 0x0au8, 0x1au8, 0x0au8]
}

/// The big-endian 32-bit number in the four bytes from index `at`.
pub open spec fn be_u32(bytes: Seq<u8>, at: int) -> u32 {
    (bytes[at] * 0x100_0000 + bytes[at + 1] * 0x1_0000 + bytes[at + 2] * 0x100 + bytes[at
        + 3]) as u32
}

/// Width and height of a PNG, which its IHDR chunk holds at bytes 16 and 20.
pub open spec fn png_dimensions_of(bytes: Seq<u8>) -> Option<(u32, u32)> {
    if bytes.len() >= 24 && bytes.take(8) == png_signature() {
        Some((be_u32(bytes, 16), be_u32(bytes, 20)))
    } else {
        None
    }
}

/// The pixel dimensions of an image: those that the `s` and `v` keys give,
/// else those in the header of an uncompressed PNG.
pub open spec fn dimensions_of(control: KittyControl, data: Seq<u8>) -> Option<(u32, u32)> {
    match (control.src_width, control.src_height) {
        (Some(w), Some(h)) => Some((w, h)),
        _ => if !control.compressed && control.format == KittyFormat::Png {
            png_dimensions_of(data)
        } else {
            None
        },
    }
}

/// Decodes a base64 payload. `None` where it is malformed.
pub fn decode_payload(b64: &[u8]) -> (r: Option<Vec<u8>>)
    ensures
        bytes_of(r) == base64_decoded(b64@),
{
    base64_decode(b64)
}

/// Determines the image's pixel dimensions without decoding pixels.
///
/// Explicit `s` and `v` keys count for every format. Without them an
/// uncompressed PNG has its dimensions in the header of the decoded payload,
/// and every other image has none.
pub fn image_dimensions(control: &KittyControl, decoded_payload: &[u8]) -> (r: Option<(u32, u32)>)
    ensures
        r == dimensions_of(*control, decoded_payload@),
{
    if let (Some(w), Some(h)) = (control.src_width, control.src_height) {
        return Some((w, h));
    }
    if control.compressed {
        return None;
    }
    match control.format {
        KittyFormat::Png => png_dimensions(decoded_payload),
        KittyFormat::Rgb | KittyFormat::Rgba => None,
    }
}

fn read_be_u32(bytes: &[u8], at: usize) -> (r: u32)
    requires
        at + 4 <= bytes@.len(),
    ensures
        r == be_u32(bytes@, at as int),
{
    bytes[at] as u32 * 0x100_0000 + bytes[at + 1] as u32 * 0x1_0000 + bytes[at + 2] as u32 * 0x100
        + bytes[at + 3] as u32
}

/// Reads width and height from a PNG header: the signature, the length and the
/// name of the IHDR chunk, then the two numbers in big-endian order.
fn png_dimensions(bytes: &[u8]) -> (r: Option<(u32, u32)>)
    ensures
        r == png_dimensions_of(bytes@),
{
    if bytes.len() < 24 {
        return None;
    }
    if bytes[0] != 0x89 || bytes[1] != 0x50 || bytes[2] != 0x4e || bytes[3] != 0x47 || bytes[4]
        != 0x0d || bytes[5] != 0x0a || bytes[6] != 0x1a || bytes[7] != 0x0a {
        proof {
            let s = bytes@.take(8);
            assert(s[0] == bytes@[0] && s[1] == bytes@[1] && s[2] == bytes@[2] && s[3] == bytes@[3]
                && s[4] == bytes@[4] && s[5] == bytes@[5] && s[6] == bytes@[6] && s[7]
                == bytes@[7]);
        }
        return None;
    }
    assert(bytes@.take(8) =~= png_signature());
    Some((read_be_u32(bytes, 16), read_be_u32(bytes, 20)))
}

} // verus!
