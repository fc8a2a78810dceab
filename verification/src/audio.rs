//! Sound effects: the conversion of a sound lump to a WAV file image, and how
//! loud and how far to either side a sound of the world is heard.
//!
//! A sound lump starts with an eight-byte header, of which bytes 2 and 3 give
//! the sample rate and bytes 4 to 7 the number of samples, both little-endian.
//! The samples follow, one unsigned byte each.

use crate::bytes::le_bytes_of;
use crate::bytes::le_bytes_of_u16;
use crate::bytes::push_le_u16;
use crate::bytes::push_le_u32;
use crate::bytes::read_u16_at;
use crate::bytes::read_u32_at;
use crate::bytes::u16_le;
use crate::bytes::u32_le;
use crate::numbers::integer_root;
use crate::numbers::is_root;
use crate::numbers::lemma_product_bound;
use vstd::prelude::*;

verus! {

/// Why a sound lump could not be converted.
#[derive(Debug, Clone, Copy, PartialEq, Eq, Structural)]
pub enum SoundError {
    /// The lump is shorter than its header.
    TooShort,
    /// The lump announces more samples than a WAV file can declare.
    TooLong,
}

/// The length of the header of a sound lump.
pub const SOUND_HEADER_LEN: usize = 8;

/// The length of a WAV header before the sample data.
pub const WAV_HEADER_LEN: usize = 44;

/// The sample rate a sound lump announces.
pub open spec fn sample_rate(lump: Seq<u8>) -> u16 {
    u16_le(lump, 2)
}

/// The number of samples a sound lump announces.
pub open spec fn sample_count(lump: Seq<u8>) -> u32 {
    u32_le(lump, 4)
}

/// The header of a WAV file of one channel of unsigned eight-bit samples:
/// the `RIFF` chunk with its length, the `WAVE` tag, the sixteen-byte `fmt `
/// chunk, and the head of the `data` chunk.
pub open spec fn wav_header(rate: u16, count: u32) -> Seq<u8> {
    seq![82u8, 73u8, 70u8, 70u8] + le_bytes_of((36 + count) as u32) + seq![
        87u8,
        65u8,
        86u8,
        69u8,
        102u8,
        109u8,
        116u8,
        32u8,
    ] + le_bytes_of(16) + le_bytes_of_u16(1) + le_bytes_of_u16(1) + le_bytes_of(rate as u32)
        + le_bytes_of(rate as u32) + le_bytes_of_u16(1) + le_bytes_of_u16(8) + seq![
        100u8,
        97u8,
        116u8,
        97u8,
    ] + le_bytes_of(count)
}

/// The WAV image of a sound lump: the header for the announced rate and
/// count, then every byte of the lump after its own header.
pub open spec fn wav_of(lump: Seq<u8>) -> Result<Seq<u8>, SoundError> {
    if lump.len() < 8 {
        Err(SoundError::TooShort)
    } else if sample_count(lump) > 0xFFFF_FFFF - 36 {
        Err(SoundError::TooLong)
    } else {
        Ok(wav_header(sample_rate(lump), sample_count(lump)) + lump.skip(8))
    }
}

/// A WAV header is `WAV_HEADER_LEN` bytes long, whatever it announces.
pub proof fn lemma_wav_header_len(rate: u16, count: u32)
    ensures
        wav_header(rate, count).len() == WAV_HEADER_LEN,
{
}

fn push_tag(out: &mut Vec<u8>, a: u8, b: u8, c: u8, d: u8)
    ensures
        final(out)@ == old(out)@ + seq![a, b, c, d],
{
    out.push(a);
    out.push(b);
    out.push(c);
    out.push(d);
    assert(out@ =~= old(out)@ + seq![a, b, c, d]);
}

/// Converts a sound lump to the image of a WAV file.
pub fn convert_doom_sound_to_wav(doom_data: &[u8]) -> (r: Result<Vec<u8>, SoundError>)
    ensures
        match r {
            Ok(wav) => wav_of(doom_data@) == Ok::<Seq<u8>, SoundError>(wav@),
            Err(e) => wav_of(doom_data@) == Err::<Seq<u8>, SoundError>(e),
        },
{
    let len: usize = doom_data.len();
    if len < SOUND_HEADER_LEN {
        return Err(SoundError::TooShort);
    }
    let rate: u16 = read_u16_at(doom_data, 2);
    let count: u32 = read_u32_at(doom_data, 4);
    if count > 0xFFFF_FFFF - 36 {
        return Err(SoundError::TooLong);
    }
    let mut wav: Vec<u8> = Vec::new();
    push_tag(&mut wav, 82, 73, 70, 70);
    push_le_u32(&mut wav, 36 + count);
    push_tag(&mut wav, 87, 65, 86, 69);
    push_tag(&mut wav, 102, 109, 116, 32);
    push_le_u32(&mut wav, 16);
    push_le_u16(&mut wav, 1);
    push_le_u16(&mut wav, 1);
    push_le_u32(&mut wav, rate as u32);
    push_le_u32(&mut wav, rate as u32);
    push_le_u16(&mut wav, 1);
    push_le_u16(&mut wav, 8);
    push_tag(&mut wav, 100, 97, 116, 97);
    push_le_u32(&mut wav, count);
    assert(wav@ =~= wav_header(rate, count));
    let ghost header = wav@;
    let mut i: usize = SOUND_HEADER_LEN;
    while i < len
        invariant
            8 <= i <= len,
            len == doom_data@.len(),
            wav@ == header + doom_data@.subrange(8, i as int),
        decreases len - i,
    {
        wav.push(doom_data[i]);
        assert(wav@ =~= header + doom_data@.subrange(8, i as int + 1));
        i = i + 1;
    }
    assert(doom_data@.subrange(8, len as int) =~= doom_data@.skip(8));
    Ok(wav)
}

/// How a sound is to be played: its volume, from 0 to 255, and how much of
/// it goes to the left and to the right ear.
#[derive(Debug, Clone, Copy, PartialEq, Eq, Structural)]
pub struct SoundMix {
    pub volume: i32,
    pub left: u8,
    pub right: u8,
}

/// The volume of a sound at the given distance, in viewer coordinates: full
/// volume, 255, over one plus a hundredth of the distance in map units. With
/// both sides of the fraction times a hundred map units, that is
/// `25500 * 65536` over `100 * 65536` plus the distance.
pub open spec fn volume_at(distance: int) -> int {
    1671168000int / (6553600 + distance)
}

/// The share of a sound that goes to the right ear: one plus the sine of the
/// bearing of the sound, times 127. The sine of the bearing is the sound's
/// offset along the second axis over its distance; a sound at no distance has
/// no bearing and is heard in the middle.
pub open spec fn pan_at(dy: int, distance: int) -> int {
    if distance <= 0 {
        127
    } else {
        ((dy + distance) * 127) / distance
    }
}

/// `mix` is how a listener at `(x, y)` hears a sound at `(sound_x, sound_y)`,
/// both in viewer coordinates. The distance is rounded down.
pub open spec fn is_mix(x: int, y: int, sound_x: int, sound_y: int, mix: SoundMix) -> bool {
    exists|distance: int|
        {
            &&& #[trigger] is_root(
                (sound_x - x) * (sound_x - x) + (sound_y - y) * (sound_y - y),
                distance,
            )
            &&& mix.volume == volume_at(distance)
            &&& mix.right == pan_at(sound_y - y, distance)
            &&& mix.left == 255 - mix.right
        }
}

/// Tells how loud and how far to either side a sound is heard.
pub fn mix_sound_3d(x: i32, y: i32, sound_x: i32, sound_y: i32) -> (mix: SoundMix)
    ensures
        is_mix(x as int, y as int, sound_x as int, sound_y as int, mix),
        0 <= mix.volume <= 255,
{
    let dx: i128 = sound_x as i128 - x as i128;
    let dy: i128 = sound_y as i128 - y as i128;
    proof {
        lemma_product_bound(dx as int, dx as int, 0x1_0000_0000, 0x1_0000_0000);
        lemma_product_bound(dy as int, dy as int, 0x1_0000_0000, 0x1_0000_0000);
        assert(dx * dx >= 0 && dy * dy >= 0) by (nonlinear_arith);
    }
    let distance: i128 = integer_root((dx * dx + dy * dy) as u128) as i128;
    assert(-distance <= dy <= distance && distance <= 0x2_0000_0000) by (nonlinear_arith)
        requires
            0 <= distance,
            distance * distance <= dx * dx + dy * dy < (distance + 1) * (distance + 1),
            dx * dx + dy * dy <= 0x2_0000_0000_0000_0000,
            dx * dx >= 0,
    ;
    let volume: i128 = 1671168000 / (6553600 + distance);
    let right: i128 = if distance == 0 {
        127
    } else {
        proof {
            lemma_pan_in_range(dy as int, distance as int);
        }
        ((dy + distance) * 127) / distance
    };
    assert(0 <= volume <= 255) by {
        vstd::arithmetic::div_mod::lemma_div_is_ordered_by_denominator(
            1671168000int,
            6553600int,
            6553600 + distance as int,
        );
        vstd::arithmetic::div_mod::lemma_div_pos_is_pos(1671168000int, 6553600 + distance as int);
    }
    SoundMix { volume: volume as i32, left: (255 - right) as u8, right: right as u8 }
}

/// The share that goes to the right ear lies between 0 and 254.
pub proof fn lemma_pan_in_range(dy: int, distance: int)
    requires
        0 < distance,
        -distance <= dy <= distance,
    ensures
        0 <= pan_at(dy, distance) <= 254,
{
    let top = (dy + distance) * 127;
    assert(0 <= top <= 254 * distance) by (nonlinear_arith)
        requires
            top == (dy + distance) * 127,
            0 <= dy + distance <= 2 * distance,
    ;
    vstd::arithmetic::div_mod::lemma_div_pos_is_pos(top, distance);
    vstd::arithmetic::div_mod::lemma_div_is_ordered(top, 254 * distance, distance);
    vstd::arithmetic::div_mod::lemma_div_multiples_vanish(254, distance);
    assert(254 * distance == distance * 254) by (nonlinear_arith);
}

} // verus!
