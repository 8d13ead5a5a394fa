//! A pixel update command and its two encodings: the ASCII-hex wire frame and
//! the packed 32-bit word that crosses between the cores.

use vstd::prelude::*;

verus! {

/// The ASCII newline that ends a wire frame.
pub const NEWLINE: u8 = 0x0A;

/// A pixel update: set pixel `pixel` of strip `strip` to `rgb`.
///
/// The packed form holds only 4 strip indices, 512 pixel indices and 7 bits
/// per color channel: packing masks `strip` and `pixel` and drops the least
/// significant bit of each channel.
#[derive(Debug, Clone, Copy, PartialEq, Eq)]
pub struct Command {
    /// The index of the strip to update
    pub strip: usize,
    /// The index of the pixel to update
    pub pixel: usize,
    /// The new color
    pub rgb: (u8, u8, u8),
}

/// The command that a packed word stands for.
pub open spec fn unpacked(word: u32) -> Command {
    Command {
        strip: (word / 0x4000_0000) as usize,
        pixel: ((word / 0x20_0000) % 512) as usize,
        rgb: (
            (2 * ((word / 0x4000) % 128)) as u8,
            (2 * ((word / 0x80) % 128)) as u8,
            (2 * (word % 128)) as u8,
        ),
    }
}

/// The packed word of a command: strip in bits 31..30, pixel in 29..21, and
/// the upper seven bits of red, green and blue in 20..14, 13..7 and 6..0.
pub open spec fn packed(c: Command) -> u32 {
    ((c.strip % 4) * 0x4000_0000 + (c.pixel % 512) * 0x20_0000 + (c.rgb.0 / 2) * 0x4000 + (
    c.rgb.1 / 2) * 0x80 + c.rgb.2 / 2) as u32
}

/// Whether `c` is an ASCII hex digit (`0-9`, `a-f`, `A-F`).
pub open spec fn is_hex_digit(c: u8) -> bool {
    (0x30 <= c <= 0x39) || (0x61 <= c <= 0x66) || (0x41 <= c <= 0x46)
}

/// The value of an ASCII hex digit.
pub open spec fn hex_digit_value(c: u8) -> int {
    if 0x30 <= c <= 0x39 {
        c - 0x30
    } else if 0x61 <= c <= 0x66 {
        c - 0x61 + 10
    } else {
        c - 0x41 + 10
    }
}

/// The byte that hex pair `i` of a frame spells.
pub open spec fn wire_byte(data: Seq<u8>, i: int) -> int {
    16 * hex_digit_value(data[2 * i]) + hex_digit_value(data[2 * i + 1])
}

/// A frame is well formed when its byte 16 is a newline and the 16 bytes
/// before it are hex digits.
pub open spec fn is_hex_frame(data: Seq<u8>) -> bool {
    &&& data.len() >= 17
    &&& data[16] == NEWLINE
    &&& forall|k: int| 0 <= k < 16 ==> is_hex_digit(#[trigger] data[k])
}

/// The big-endian strip field of a frame.
pub open spec fn wire_strip(data: Seq<u8>) -> int {
    256 * wire_byte(data, 0) + wire_byte(data, 1)
}

/// The big-endian pixel field of a frame.
pub open spec fn wire_pixel(data: Seq<u8>) -> int {
    256 * wire_byte(data, 2) + wire_byte(data, 3)
}

/// The command that a wire frame carries, if it carries one: the frame is
/// well formed, strip is at most 3, pixel at most 511 and the reserved byte
/// is zero.
pub open spec fn decode_wire(data: Seq<u8>) -> Option<Command> {
    if is_hex_frame(data) && wire_strip(data) <= 3 && wire_pixel(data) <= 511 && wire_byte(data, 7)
        == 0 {
        Some(
            Command {
                strip: wire_strip(data) as usize,
                pixel: wire_pixel(data) as usize,
                rgb: (wire_byte(data, 4) as u8, wire_byte(data, 5) as u8, wire_byte(data, 6) as u8),
            },
        )
    } else {
        None
    }
}

/// Decodes one ASCII hex digit.
fn decode_nibble(c: u8) -> (r: Option<u8>)
    ensures
        r == (if is_hex_digit(c) {
            Some(hex_digit_value(c) as u8)
        } else {
            None::<u8>
        }),
{
    if 0x30 <= c && c <= 0x39 {
        Some(c - 0x30)
    } else if 0x61 <= c && c <= 0x66 {
        Some(c - 0x61 + 10)
    } else if 0x41 <= c && c <= 0x46 {
        Some(c - 0x41 + 10)
    } else {
        None
    }
}

proof fn lemma_join_fields(s: u32, p: u32, r: u32, g: u32, b: u32)
    by (bit_vector)
    requires
        s < 4,
        p < 512,
        r < 128,
        g < 128,
        b < 128,
    ensures
        (s << 30) | (p << 21) | (r << 14) | (g << 7) | b == s * 0x4000_0000 + p * 0x20_0000 + r
            * 0x4000 + g * 0x80 + b,
{
}

proof fn lemma_split_fields(w: u32)
    by (bit_vector)
    ensures
        (w >> 30) & 0b11 == w / 0x4000_0000,
        (w >> 21) & 0x1FF == (w / 0x20_0000) % 512,
        (w >> 14) & 0x7F == (w / 0x4000) % 128,
        (w >> 7) & 0x7F == (w / 0x80) % 128,
        w & 0x7F == w % 128,
{
}

proof fn lemma_fields_of_word(w: u32, s: u32, p: u32, r: u32, g: u32, b: u32)
    by (bit_vector)
    requires
        s < 4,
        p < 512,
        r < 128,
        g < 128,
        b < 128,
        w == s * 0x4000_0000 + p * 0x20_0000 + r * 0x4000 + g * 0x80 + b,
    ensures
        w / 0x4000_0000 == s,
        (w / 0x20_0000) % 512 == p,
        (w / 0x4000) % 128 == r,
        (w / 0x80) % 128 == g,
        w % 128 == b,
{
}

proof fn lemma_clear_low_bit(x: u8)
    by (bit_vector)
    ensures
        x & 0xFE == 2 * (x / 2),
{
}

/// Packing then unpacking keeps the low two bits of the strip, the low nine
/// bits of the pixel, and each color channel with its least significant bit
/// cleared.
pub proof fn lemma_unpack_pack(c: Command)
    ensures
        unpacked(packed(c)) == (Command {
            strip: c.strip % 4,
            pixel: c.pixel % 512,
            rgb: (c.rgb.0 & 0xFE, c.rgb.1 & 0xFE, c.rgb.2 & 0xFE),
        }),
{
    let w = packed(c);
    lemma_fields_of_word(
        w,
        (c.strip % 4) as u32,
        (c.pixel % 512) as u32,
        (c.rgb.0 / 2) as u32,
        (c.rgb.1 / 2) as u32,
        (c.rgb.2 / 2) as u32,
    );
    lemma_clear_low_bit(c.rgb.0);
    lemma_clear_low_bit(c.rgb.1);
    lemma_clear_low_bit(c.rgb.2);
}

/// A command whose strip and pixel are in range and whose color channels are
/// even comes back unchanged from packing and unpacking.
pub proof fn lemma_round_trip(c: Command)
    requires
        c.strip <= 3,
        c.pixel <= 511,
        c.rgb.0 % 2 == 0,
        c.rgb.1 % 2 == 0,
        c.rgb.2 % 2 == 0,
    ensures
        unpacked(packed(c)) == c,
{
    lemma_unpack_pack(c);
    lemma_clear_low_bit(c.rgb.0);
    lemma_clear_low_bit(c.rgb.1);
    lemma_clear_low_bit(c.rgb.2);
}

/// Each color channel loses exactly its least significant bit in the round
/// trip: an odd value comes back one less, an even one unchanged.
pub proof fn lemma_lossy_channels(c: Command)
    ensures
        unpacked(packed(c)).rgb.0 == c.rgb.0 & 0xFE,
        unpacked(packed(c)).rgb.1 == c.rgb.1 & 0xFE,
        unpacked(packed(c)).rgb.2 == c.rgb.2 & 0xFE,
        unpacked(packed(c)).rgb.0 == c.rgb.0 - c.rgb.0 % 2,
        unpacked(packed(c)).rgb.1 == c.rgb.1 - c.rgb.1 % 2,
        unpacked(packed(c)).rgb.2 == c.rgb.2 - c.rgb.2 % 2,
{
    lemma_unpack_pack(c);
    lemma_clear_low_bit(c.rgb.0);
    lemma_clear_low_bit(c.rgb.1);
    lemma_clear_low_bit(c.rgb.2);
}

/// Packing is idempotent once packed: every word is the packing of the
/// command it unpacks to.
pub proof fn lemma_pack_unpack(w: u32)
    ensures
        packed(unpacked(w)) == w,
{
    assert(w == (w / 0x4000_0000) * 0x4000_0000 + ((w / 0x20_0000) % 512) * 0x20_0000 + ((w
        / 0x4000) % 128) * 0x4000 + ((w / 0x80) % 128) * 0x80 + w % 128) by (bit_vector);
}

/// A frame is rejected when it lacks its newline at byte 16, holds a byte
/// that is not a hex digit among its first 16, or carries a strip above 3, a
/// pixel above 511 or a non-zero reserved byte; every other frame decodes.
pub proof fn lemma_decode_rejects(data: Seq<u8>)
    ensures
        data.len() < 17 ==> decode_wire(data) is None,
        data.len() >= 17 && data[16] != NEWLINE ==> decode_wire(data) is None,
        (exists|k: int| 0 <= k < 16 && !is_hex_digit(#[trigger] data[k])) ==> decode_wire(
            data,
        ) is None,
        wire_strip(data) > 3 ==> decode_wire(data) is None,
        wire_pixel(data) > 511 ==> decode_wire(data) is None,
        wire_byte(data, 7) != 0 ==> decode_wire(data) is None,
        is_hex_frame(data) && wire_strip(data) <= 3 && wire_pixel(data) <= 511 && wire_byte(data, 7)
            == 0 ==> decode_wire(data) is Some,
{
}

impl Command {
    /// The length of a wire frame: 16 hex digits and a newline.
    pub const SERIAL_LEN: usize = 16 + 1;

    /// Decodes a wire frame.
    ///
    /// Returns `None` unless byte 16 is a newline, the 16 bytes before it are
    /// hex digits, strip is at most 3, pixel at most 511 and the reserved byte
    /// is zero. Bytes after the newline are not read.
    pub fn from_serial(data: &[u8]) -> (r: Option<Command>)
        ensures
            r == decode_wire(data@),
    {
        if data.len() < Self::SERIAL_LEN || data[16] != NEWLINE {
            return None;
        }
        let mut binary: Vec<u8> = Vec::new();
        let mut index: usize = 0;
        while index < 8
            invariant
                index <= 8,
                data@.len() >= 17,
                data@[16] == NEWLINE,
                binary@.len() == index,
                forall|k: int| 0 <= k < 2 * index ==> is_hex_digit(#[trigger] data@[k]),
                forall|k: int| 0 <= k < index ==> binary@[k] == wire_byte(data@, k),
            decreases 8 - index,
        {
            let high = match decode_nibble(data[index * 2]) {
                Some(v) => v,
                None => {
                    return None;
                },
            };
            let low = match decode_nibble(data[index * 2 + 1]) {
                Some(v) => v,
                None => {
                    return None;
                },
            };
            binary.push(high * 16 + low);
            index += 1;
        }
        let strip: u16 = binary[0] as u16 * 256 + binary[1] as u16;
        let pixel: u16 = binary[2] as u16 * 256 + binary[3] as u16;
        if strip > 3 || pixel > 511 || binary[7] != 0 {
            return None;
        }
        Some(Command { strip: strip as usize, pixel: pixel as usize, rgb: (binary[4], binary[5], binary[6]) })
    }

    /// Unpacks a packed word; the color channels come back with a zero
    /// least significant bit.
    pub fn from_u32(packed: u32) -> (r: Command)
        ensures
            r == unpacked(packed),
    {
        let strip = (packed >> 30) & 0b11;
        let pixel = (packed >> 21) & 0x1FF;
        let red = (packed >> 14) & 0x7F;
        let green = (packed >> 7) & 0x7F;
        let blue = packed & 0x7F;
        proof {
            lemma_split_fields(packed);
        }
        Command {
            strip: strip as usize,
            pixel: pixel as usize,
            rgb: ((red * 2) as u8, (green * 2) as u8, (blue * 2) as u8),
        }
    }

    /// Packs the command into one word. An out-of-range strip or pixel is
    /// truncated to its low bits, not rejected.
    pub fn to_u32(self) -> (r: u32)
        ensures
            r == packed(self),
    {
        let (r, g, b) = self.rgb;
        let strip = (self.strip % 4) as u32;
        let pixel = (self.pixel % 512) as u32;
        let (r, g, b) = ((r / 2) as u32, (g / 2) as u32, (b / 2) as u32);
        proof {
            lemma_join_fields(strip, pixel, r, g, b);
        }
        (strip << 30) | (pixel << 21) | (r << 14) | (g << 7) | b
    }
}

} // verus!
