//! Little-endian fields and fixed-width names, the two primitives every
//! record layout in a WAD is made of.

use byteorder::ByteOrder;
use byteorder::LittleEndian;
use vstd::arithmetic::div_mod::lemma_div_denominator;
use vstd::arithmetic::div_mod::lemma_fundamental_div_mod;
use vstd::arithmetic::div_mod::lemma_fundamental_div_mod_converse;
use vstd::prelude::*;
use vstd::slice::slice_subrange;
use vstd::utf8::decode_utf8;
use vstd::utf8::valid_utf8;

verus! {

/// The unsigned 16-bit value stored at `at`, least significant byte first.
pub open spec fn u16_le(s: Seq<u8>, at: int) -> u16
    recommends
        0 <= at && at + 2 <= s.len(),
{
    (s[at] as int + 256 * (s[at + 1] as int)) as u16
}

/// The signed 16-bit value stored at `at`: the two's complement reading of
/// `u16_le`.
pub open spec fn i16_le(s: Seq<u8>, at: int) -> i16
    recommends
        0 <= at && at + 2 <= s.len(),
{
    let u = u16_le(s, at) as int;
    if u < 32768 {
        u as i16
    } else {
        (u - 65536) as i16
    }
}

/// The unsigned 32-bit value stored at `at`, least significant byte first.
pub open spec fn u32_le(s: Seq<u8>, at: int) -> u32
    recommends
        0 <= at && at + 4 <= s.len(),
{
    (s[at] as int + 256 * (s[at + 1] as int) + 65536 * (s[at + 2] as int) + 16777216 * (s[at
        + 3] as int)) as u32
}

/// `byteorder::LittleEndian::read_u16`: decodes the first two bytes of `buf`,
/// least significant first. The call panics on a shorter buffer, which the
/// precondition rules out.
#[verifier::external_body]
fn le_read_u16(buf: &[u8]) -> (v: u16)
    requires
        buf@.len() >= 2,
    ensures
        v == u16_le(buf@, 0),
{
    LittleEndian::read_u16(buf)
}

/// `byteorder::LittleEndian::read_i16`: the same two bytes as `read_u16`,
/// reinterpreted as a two's complement value.
#[verifier::external_body]
fn le_read_i16(buf: &[u8]) -> (v: i16)
    requires
        buf@.len() >= 2,
    ensures
        v == i16_le(buf@, 0),
{
    LittleEndian::read_i16(buf)
}

/// `byteorder::LittleEndian::read_u32`: decodes the first four bytes of
/// `buf`, least significant first. The call panics on a shorter buffer.
#[verifier::external_body]
fn le_read_u32(buf: &[u8]) -> (v: u32)
    requires
        buf@.len() >= 4,
    ensures
        v == u32_le(buf@, 0),
{
    LittleEndian::read_u32(buf)
}

/// Reads the `u16` field that starts at byte `at`.
pub fn read_u16_at(data: &[u8], at: usize) -> (v: u16)
    requires
        at + 2 <= data@.len(),
    ensures
        v == u16_le(data@, at as int),
{
    let len: usize = data.len();
    assert(at + 2 <= len);
    le_read_u16(slice_subrange(data, at, at + 2))
}

/// Reads the `i16` field that starts at byte `at`.
pub fn read_i16_at(data: &[u8], at: usize) -> (v: i16)
    requires
        at + 2 <= data@.len(),
    ensures
        v == i16_le(data@, at as int),
{
    let len: usize = data.len();
    assert(at + 2 <= len);
    le_read_i16(slice_subrange(data, at, at + 2))
}

/// Reads the `u32` field that starts at byte `at`.
pub fn read_u32_at(data: &[u8], at: usize) -> (v: u32)
    requires
        at + 4 <= data@.len(),
    ensures
        v == u32_le(data@, at as int),
{
    let len: usize = data.len();
    assert(at + 4 <= len);
    le_read_u32(slice_subrange(data, at, at + 4))
}

/// Byte `j` of the little-endian form of `v`.
pub open spec fn le_byte(v: u32, j: int) -> u8 {
    if j == 0 {
        (v % 256) as u8
    } else if j == 1 {
        (v / 256 % 256) as u8
    } else if j == 2 {
        (v / 65536 % 256) as u8
    } else {
        (v / 16777216 % 256) as u8
    }
}

/// The four bytes of `v`, least significant first.
pub open spec fn le_bytes_of(v: u32) -> Seq<u8> {
    seq![le_byte(v, 0), le_byte(v, 1), le_byte(v, 2), le_byte(v, 3)]
}

/// Appends the little-endian form of `v`.
pub fn push_le_u32(out: &mut Vec<u8>, v: u32)
    ensures
        final(out)@ == old(out)@ + le_bytes_of(v),
{
    out.push((v % 256) as u8);
    out.push((v / 256 % 256) as u8);
    out.push((v / 65536 % 256) as u8);
    out.push((v / 16777216 % 256) as u8);
    assert(out@ =~= old(out)@ + le_bytes_of(v));
}

/// The two bytes of `v`, least significant first.
pub open spec fn le_bytes_of_u16(v: u16) -> Seq<u8> {
    seq![(v % 256) as u8, (v / 256) as u8]
}

/// Appends the little-endian form of `v`.
pub fn push_le_u16(out: &mut Vec<u8>, v: u16)
    ensures
        final(out)@ == old(out)@ + le_bytes_of_u16(v),
{
    out.push((v % 256) as u8);
    out.push((v / 256) as u8);
    assert(out@ =~= old(out)@ + le_bytes_of_u16(v));
}

/// The little-endian bytes of a decoded field are the bytes it was decoded
/// from.
pub proof fn lemma_le_bytes(s: Seq<u8>, at: int)
    requires
        0 <= at,
        at + 4 <= s.len(),
    ensures
        le_byte(u32_le(s, at), 0) == s[at],
        le_byte(u32_le(s, at), 1) == s[at + 1],
        le_byte(u32_le(s, at), 2) == s[at + 2],
        le_byte(u32_le(s, at), 3) == s[at + 3],
{
    let b0 = s[at] as int;
    let b1 = s[at + 1] as int;
    let b2 = s[at + 2] as int;
    let b3 = s[at + 3] as int;
    let v = b0 + 256 * b1 + 65536 * b2 + 16777216 * b3;
    assert(u32_le(s, at) == v);
    lemma_fundamental_div_mod_converse(v, 256, b1 + 256 * b2 + 65536 * b3, b0);
    lemma_fundamental_div_mod_converse(v, 65536, b2 + 256 * b3, b0 + 256 * b1);
    lemma_fundamental_div_mod_converse(v, 16777216, b3, b0 + 256 * b1 + 65536 * b2);
    lemma_fundamental_div_mod_converse(v / 256, 256, b2 + 256 * b3, b1);
    lemma_fundamental_div_mod_converse(v / 65536, 256, b3, b2);
    lemma_fundamental_div_mod_converse(v / 16777216, 256, 0, b3);
}

/// Decoding the little-endian bytes of a value gives the value back.
pub proof fn lemma_le_value(v: u32, s: Seq<u8>, at: int)
    requires
        0 <= at,
        at + 4 <= s.len(),
        forall|j: int| 0 <= j < 4 ==> s[at + j] == le_byte(v, j),
    ensures
        u32_le(s, at) == v,
{
    assert(s[at + 0] == le_byte(v, 0));
    assert(s[at + 1] == le_byte(v, 1));
    assert(s[at + 2] == le_byte(v, 2));
    assert(s[at + 3] == le_byte(v, 3));
    let x = v as int;
    lemma_fundamental_div_mod(x, 256);
    lemma_fundamental_div_mod(x / 256, 256);
    lemma_fundamental_div_mod(x / 65536, 256);
    lemma_div_denominator(x, 256, 256);
    lemma_div_denominator(x, 65536, 256);
    assert(x / 16777216 < 256);
}

/// The length of the text in a fixed-width name field: the number of bytes
/// before the first zero byte, or the whole field if it holds none.
pub open spec fn text_len(field: Seq<u8>) -> nat
    decreases field.len(),
{
    if field.len() == 0 || field[0] == 0 {
        0
    } else {
        1 + text_len(field.skip(1))
    }
}

/// What `String::from_utf8_lossy` makes of a byte string. On well-formed
/// UTF-8 this is the decoded text; elsewhere each malformed sequence is
/// replaced by U+FFFD, by rules that are not restated here.
pub uninterp spec fn utf8_lossy(bytes: Seq<u8>) -> Seq<char>;

/// The text of a byte string, read leniently: well-formed UTF-8 decodes to
/// itself, anything else to its lossy reading.
pub open spec fn lossy_text(bytes: Seq<u8>) -> Seq<char> {
    if valid_utf8(bytes) {
        decode_utf8(bytes)
    } else {
        utf8_lossy(bytes)
    }
}

/// The name held by a fixed-width field: the bytes before the first zero
/// byte, read as text.
pub open spec fn field_name(field: Seq<u8>) -> Seq<char> {
    lossy_text(field.take(text_len(field) as int))
}

/// `text_len` never exceeds the field, no byte before it is zero, and the byte
/// at it, if there is one, is zero.
pub proof fn lemma_text_len(field: Seq<u8>)
    ensures
        text_len(field) <= field.len(),
        forall|i: int| 0 <= i < text_len(field) ==> field[i] != 0,
        text_len(field) < field.len() ==> field[text_len(field) as int] == 0,
    decreases field.len(),
{
    if field.len() == 0 || field[0] == 0 {
    } else {
        let rest = field.skip(1);
        lemma_text_len(rest);
        assert forall|i: int| 0 <= i < text_len(field) implies field[i] != 0 by {
            if i > 0 {
                assert(field[i] == rest[i - 1]);
            }
        }
        if text_len(field) < field.len() {
            assert(field[text_len(field) as int] == rest[text_len(rest) as int]);
        }
    }
}

/// Any position that has no zero byte before it and is the end of the field
/// or a zero byte is `text_len`.
pub proof fn lemma_text_len_unique(field: Seq<u8>, n: int)
    requires
        0 <= n <= field.len(),
        forall|i: int| 0 <= i < n ==> field[i] != 0,
        n < field.len() ==> field[n] == 0,
    ensures
        text_len(field) == n,
{
    lemma_text_len(field);
    let t = text_len(field) as int;
    if t < n {
        assert(field[t] == 0);
    } else if n < t {
        assert(field[n] != 0);
    }
}

/// `String::from_utf8_lossy`, made into an owned `String`. The standard
/// library documents that valid UTF-8 comes back unchanged as text and that
/// invalid sequences are replaced; the result depends on the bytes alone.
#[verifier::external_body]
fn string_from_utf8_lossy(bytes: &[u8]) -> (s: String)
    ensures
        s@ == utf8_lossy(bytes@),
        valid_utf8(bytes@) ==> s@ == decode_utf8(bytes@),
{
    String::from_utf8_lossy(bytes).into_owned()
}

/// Counts the bytes of `field` before its first zero byte.
pub fn name_len(field: &[u8]) -> (n: usize)
    ensures
        n == text_len(field@),
{
    let len: usize = field.len();
    let mut n: usize = 0;
    while n < len && field[n] != 0
        invariant
            len == field@.len(),
            n <= len,
            forall|i: int| 0 <= i < n ==> field@[i] != 0,
        decreases len - n,
    {
        n = n + 1;
    }
    proof {
        lemma_text_len_unique(field@, n as int);
    }
    n
}

/// Converts a fixed-width, zero-padded name field to text.
pub fn name_from_field(field: &[u8]) -> (name: String)
    ensures
        name@ == field_name(field@),
{
    let n: usize = name_len(field);
    proof {
        lemma_text_len(field@);
    }
    string_from_utf8_lossy(slice_subrange(field, 0, n))
}

} // verus!
