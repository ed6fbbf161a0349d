//! Byte primitives of the wire format: big-endian two- and four-byte
//! integers, the variable-byte integer (VBI), UTF-8 strings with a
//! 16-bit length prefix, and length-prefixed binary data.
//!
//! Each primitive has a spec-level encoding (`spec_*`), a spec-level
//! parser in consuming style (`parse_*`, returning the value and the
//! unread rest), verified executable writers that append to a byte
//! vector, verified executable readers over a [`ByteReader`], and a
//! round-trip lemma tying the two together.

use vstd::prelude::*;
use vstd::string::StrSliceExecFns;
use vstd::utf8::{decode_utf8, encode_utf8, valid_utf8};
use crate::errors::MqttError;

verus! {

/// Largest value a variable-byte integer can carry (2^28 - 1).
pub const VBI_MAX: u32 = 268435455;

/// Largest byte length of a length-prefixed string or binary field.
pub const STRING_MAX: usize = 65535;

// ---------------------------------------------------------------------
// Spec-level encodings
// ---------------------------------------------------------------------

/// Big-endian encoding of a two-byte integer.
pub open spec fn spec_u16_be(v: u16) -> Seq<u8> {
    seq![(v / 256) as u8, (v % 256) as u8]
}

/// Big-endian encoding of a four-byte integer.
pub open spec fn spec_u32_be(v: u32) -> Seq<u8> {
    seq![
        (v / 0x1000000) as u8,
        ((v / 0x10000) % 256) as u8,
        ((v / 256) % 256) as u8,
        (v % 256) as u8,
    ]
}

/// Variable-byte-integer encoding: seven value bits per byte, least
/// significant group first, continuation bit set on all but the last
/// byte. Zero encodes as a single 0x00.
pub open spec fn spec_vbi(v: nat) -> Seq<u8>
    decreases v,
{
    if v < 128 {
        seq![v as u8]
    } else {
        seq![((v % 128) + 128) as u8] + spec_vbi(v / 128)
    }
}

// ---------------------------------------------------------------------
// Spec-level parsers (consuming style)
// ---------------------------------------------------------------------

/// Read one byte.
pub open spec fn parse_u8(s: Seq<u8>) -> Option<(u8, Seq<u8>)> {
    if s.len() >= 1 {
        Some((s[0], s.skip(1)))
    } else {
        None
    }
}

/// Read a big-endian two-byte integer.
pub open spec fn parse_u16_be(s: Seq<u8>) -> Option<(u16, Seq<u8>)> {
    if s.len() >= 2 {
        Some((((s[0] as int) * 256 + (s[1] as int)) as u16, s.skip(2)))
    } else {
        None
    }
}

/// Read a big-endian four-byte integer.
pub open spec fn parse_u32_be(s: Seq<u8>) -> Option<(u32, Seq<u8>)> {
    if s.len() >= 4 {
        Some(
            (
                ((s[0] as int) * 0x1000000 + (s[1] as int) * 0x10000 + (s[2] as int) * 256 + (
                s[3] as int)) as u32,
                s.skip(4),
            ),
        )
    } else {
        None
    }
}

/// Read a variable-byte integer of at most `max` bytes. Fails when the
/// input runs out, when the last permitted byte still carries the
/// continuation bit, or when the encoding is not minimal (a trailing
/// zero continuation group).
pub open spec fn parse_vbi_rec(s: Seq<u8>, max: nat) -> Option<(nat, Seq<u8>)>
    decreases max,
{
    if s.len() == 0 || max == 0 {
        None
    } else if s[0] < 128 {
        Some((s[0] as nat, s.skip(1)))
    } else {
        match parse_vbi_rec(s.skip(1), (max - 1) as nat) {
            Some((v, r)) => if v >= 1 {
                Some((((s[0] - 128) + 128 * v) as nat, r))
            } else {
                None
            },
            None => None,
        }
    }
}

/// Read a variable-byte integer: one to four bytes.
pub open spec fn parse_vbi(s: Seq<u8>) -> Option<(nat, Seq<u8>)> {
    parse_vbi_rec(s, 4)
}

/// Encoding of a UTF-8 string field: two-byte length prefix, then the
/// UTF-8 bytes of the characters.
pub open spec fn spec_string_bytes(s: Seq<char>) -> Seq<u8> {
    spec_u16_be(encode_utf8(s).len() as u16) + encode_utf8(s)
}

/// Whether a character sequence fits a string field: its UTF-8 form is
/// at most 65 535 bytes.
pub open spec fn string_fits(s: Seq<char>) -> bool {
    encode_utf8(s).len() <= STRING_MAX
}

/// Read a UTF-8 string field: length prefix, that many bytes, UTF-8
/// validation.
pub open spec fn parse_string(s: Seq<u8>) -> Option<(Seq<char>, Seq<u8>)> {
    match parse_u16_be(s) {
        Some((n, r)) => if r.len() >= n && valid_utf8(r.take(n as int)) {
            Some((decode_utf8(r.take(n as int)), r.skip(n as int)))
        } else {
            None
        },
        None => None,
    }
}

/// Encoding of a binary-data field: two-byte length prefix, then the
/// bytes.
pub open spec fn spec_binary_bytes(b: Seq<u8>) -> Seq<u8> {
    spec_u16_be(b.len() as u16) + b
}

/// Whether a byte sequence fits a binary-data field.
pub open spec fn binary_fits(b: Seq<u8>) -> bool {
    b.len() <= STRING_MAX
}

/// Read a binary-data field: length prefix, then that many raw bytes.
pub open spec fn parse_binary(s: Seq<u8>) -> Option<(Seq<u8>, Seq<u8>)> {
    match parse_u16_be(s) {
        Some((n, r)) => if r.len() >= n {
            Some((r.take(n as int), r.skip(n as int)))
        } else {
            None
        },
        None => None,
    }
}

// ---------------------------------------------------------------------
// Facts about the spec encodings
// ---------------------------------------------------------------------

/// The VBI encoding of a value up to `VBI_MAX` takes one to four
/// bytes, with the breaks at 128, 16384 and 2097152.
pub proof fn lemma_spec_vbi_len(v: nat)
    ensures
        v < 128 ==> spec_vbi(v).len() == 1,
        128 <= v < 16384 ==> spec_vbi(v).len() == 2,
        16384 <= v < 2097152 ==> spec_vbi(v).len() == 3,
        2097152 <= v <= VBI_MAX ==> spec_vbi(v).len() == 4,
    decreases v,
{
    if v >= 128 {
        lemma_spec_vbi_len(v / 128);
    }
}

/// A value parsed from at most `max` VBI bytes is below 128^max, and
/// parsing consumes the bytes it reports.
pub proof fn lemma_parse_vbi_rec_bound(s: Seq<u8>, max: nat)
    requires
        max <= 4,
    ensures
        parse_vbi_rec(s, max) matches Some((v, r)) ==> {
            &&& v < vbi_bound(max)
            &&& r.len() < s.len()
            &&& r == s.skip(s.len() - r.len())
        },
    decreases max,
{
    if s.len() > 0 && max > 0 && s[0] >= 128 {
        lemma_parse_vbi_rec_bound(s.skip(1), (max - 1) as nat);
        if let Some((v, r)) = parse_vbi_rec(s.skip(1), (max - 1) as nat) {
            assert(s.skip(1).skip(s.skip(1).len() - r.len()) =~= s.skip(s.len() - r.len()));
        }
    }
}

/// Upper bound (exclusive) on a value carried by `max` VBI bytes.
pub open spec fn vbi_bound(max: nat) -> nat {
    if max == 0 {
        1
    } else if max == 1 {
        128
    } else if max == 2 {
        16384
    } else if max == 3 {
        2097152
    } else {
        268435456
    }
}

// ---------------------------------------------------------------------
// Round-trip lemmas
// ---------------------------------------------------------------------

/// Parsing a two-byte integer back out of its encoding yields the
/// value and leaves the rest untouched.
pub proof fn lemma_u16_round_trip(v: u16, rest: Seq<u8>)
    ensures
        parse_u16_be(spec_u16_be(v) + rest) == Some((v, rest)),
{
    let s = spec_u16_be(v) + rest;
    assert(s[0] == v / 256 && s[1] == v % 256);
    assert(((s[0] as int) * 256 + (s[1] as int)) as u16 == v);
    assert(s.skip(2) =~= rest);
}

/// A value below 2^32 is the weighted sum of its four base-256
/// digits.
proof fn lemma_u32_decompose(v: int)
    requires
        0 <= v < 0x100000000,
    ensures
        (v / 0x1000000) * 0x1000000 + ((v / 0x10000) % 256) * 0x10000 + ((v / 256) % 256) * 256 + v
            % 256 == v,
{
    vstd::arithmetic::div_mod::lemma_fundamental_div_mod(v, 256);
    vstd::arithmetic::div_mod::lemma_fundamental_div_mod(v / 256, 256);
    vstd::arithmetic::div_mod::lemma_fundamental_div_mod(v / 0x10000, 256);
    vstd::arithmetic::div_mod::lemma_div_denominator(v, 256, 256);
    vstd::arithmetic::div_mod::lemma_div_denominator(v, 0x10000, 256);
    assert(0x10000 == 256 * 256 && 0x1000000 == 0x10000 * 256);
}

/// Parsing a four-byte integer back out of its encoding yields the
/// value and leaves the rest untouched.
pub proof fn lemma_u32_round_trip(v: u32, rest: Seq<u8>)
    ensures
        parse_u32_be(spec_u32_be(v) + rest) == Some((v, rest)),
{
    let s = spec_u32_be(v) + rest;
    assert(s[0] == (v / 0x1000000) as u8 && s[1] == ((v / 0x10000) % 256) as u8 && s[2] == ((v
        / 256) % 256) as u8 && s[3] == (v % 256) as u8);
    assert(((s[0] as int) * 0x1000000 + (s[1] as int) * 0x10000 + (s[2] as int) * 256 + (
    s[3] as int)) == v as int) by {
        lemma_u32_decompose(v as int);
    }
    assert(s.skip(4) =~= rest);
}

/// Parsing a variable-byte integer back out of its encoding yields the
/// value and leaves the rest untouched, for every value in range.
pub proof fn lemma_vbi_round_trip(v: nat, rest: Seq<u8>)
    requires
        v <= VBI_MAX,
    ensures
        parse_vbi(spec_vbi(v) + rest) == Some((v, rest)),
{
    lemma_spec_vbi_len(v);
    lemma_vbi_round_trip_rec(v, rest, 4);
}

/// Generalisation of [`lemma_vbi_round_trip`] over the byte budget.
proof fn lemma_vbi_round_trip_rec(v: nat, rest: Seq<u8>, max: nat)
    requires
        spec_vbi(v).len() <= max,
    ensures
        parse_vbi_rec(spec_vbi(v) + rest, max) == Some((v, rest)),
    decreases v,
{
    let s = spec_vbi(v) + rest;
    if v < 128 {
        assert(s[0] == v as u8);
        assert(s.skip(1) =~= rest);
    } else {
        assert(s[0] == ((v % 128) + 128) as u8);
        assert(s.skip(1) =~= spec_vbi(v / 128) + rest);
        lemma_vbi_round_trip_rec(v / 128, rest, (max - 1) as nat);
        assert((s[0] - 128) + 128 * (v / 128) == v) by {
            assert(v % 128 + 128 * (v / 128) == v) by {
                vstd::arithmetic::div_mod::lemma_fundamental_div_mod(v as int, 128);
            }
        }
    }
}

/// Parsing a string field back out of its encoding yields the
/// characters and leaves the rest untouched, for every string that
/// fits the field.
pub proof fn lemma_string_round_trip(s: Seq<char>, rest: Seq<u8>)
    requires
        string_fits(s),
    ensures
        parse_string(spec_string_bytes(s) + rest) == Some((s, rest)),
{
    let bs = encode_utf8(s);
    let n = bs.len() as u16;
    assert(spec_string_bytes(s) + rest =~= spec_u16_be(n) + (bs + rest));
    lemma_u16_round_trip(n, bs + rest);
    assert((bs + rest).take(n as int) =~= bs);
    assert((bs + rest).skip(n as int) =~= rest);
    vstd::utf8::encode_utf8_valid_utf8(s);
    vstd::utf8::encode_utf8_decode_utf8(s);
}

/// Parsing a binary field back out of its encoding yields the bytes
/// and leaves the rest untouched, for every payload that fits.
pub proof fn lemma_binary_round_trip(b: Seq<u8>, rest: Seq<u8>)
    requires
        binary_fits(b),
    ensures
        parse_binary(spec_binary_bytes(b) + rest) == Some((b, rest)),
{
    let n = b.len() as u16;
    assert(spec_binary_bytes(b) + rest =~= spec_u16_be(n) + (b + rest));
    lemma_u16_round_trip(n, b + rest);
    assert((b + rest).take(n as int) =~= b);
    assert((b + rest).skip(n as int) =~= rest);
}

// ---------------------------------------------------------------------
// Executable writers
// ---------------------------------------------------------------------

/// Append one byte.
pub fn write_u8(out: &mut Vec<u8>, v: u8)
    ensures
        final(out)@ == old(out)@ + seq![v],
{
    out.push(v);
}

/// Append a two-byte integer, big-endian.
pub fn write_u16_be(out: &mut Vec<u8>, v: u16)
    ensures
        final(out)@ == old(out)@ + spec_u16_be(v),
{
    out.push((v / 256) as u8);
    out.push((v % 256) as u8);
    assert(final(out)@ =~= old(out)@ + spec_u16_be(v));
}

/// Append a four-byte integer, big-endian.
pub fn write_u32_be(out: &mut Vec<u8>, v: u32)
    ensures
        final(out)@ == old(out)@ + spec_u32_be(v),
{
    out.push((v / 0x1000000) as u8);
    out.push(((v / 0x10000) % 256) as u8);
    out.push(((v / 256) % 256) as u8);
    out.push((v % 256) as u8);
    assert(final(out)@ =~= old(out)@ + spec_u32_be(v));
}

/// Append a variable-byte integer; minimal encoding, one to four
/// bytes for any value up to `VBI_MAX`.
pub fn write_vbi(out: &mut Vec<u8>, v: u32)
    ensures
        final(out)@ == old(out)@ + spec_vbi(v as nat),
    decreases v,
{
    if v < 128 {
        out.push(v as u8);
        assert(final(out)@ =~= old(out)@ + spec_vbi(v as nat));
    } else {
        out.push(((v % 128) + 128) as u8);
        write_vbi(out, v / 128);
        assert(final(out)@ =~= old(out)@ + spec_vbi(v as nat));
    }
}

/// Append every byte of a slice.
pub fn write_bytes(out: &mut Vec<u8>, b: &[u8])
    ensures
        final(out)@ == old(out)@ + b@,
{
    let mut i: usize = 0;
    while i < b.len()
        invariant
            i <= b@.len(),
            out@ == old(out)@ + b@.take(i as int),
        decreases b@.len() - i,
    {
        out.push(b[i]);
        assert(old(out)@ + b@.take(i as int) + seq![b@[i as int]] =~= old(out)@ + b@.take(
            i as int + 1,
        ));
        i = i + 1;
    }
    assert(old(out)@ + b@.take(b@.len() as int) =~= old(out)@ + b@);
}

/// Append a UTF-8 string field; rejected with `BadArgument` when the
/// UTF-8 form exceeds 65 535 bytes, leaving the output untouched.
pub fn write_string(out: &mut Vec<u8>, s: &str) -> (r: Result<(), MqttError>)
    ensures
        final(out).len() >= old(out).len(),
        if string_fits(s@) {
            r == Ok::<(), MqttError>(()) && final(out)@ == old(out)@ + spec_string_bytes(s@)
        } else {
            r == Err::<(), MqttError>(MqttError::BadArgument) && final(out)@ == old(out)@
        },
{
    let bytes = s.as_bytes_vec();
    if bytes.len() > STRING_MAX {
        return Err(MqttError::BadArgument);
    }
    write_u16_be(out, bytes.len() as u16);
    write_bytes(out, bytes.as_slice());
    assert(final(out)@ =~= old(out)@ + spec_string_bytes(s@));
    Ok(())
}

/// Append a binary-data field; rejected with `BadArgument` when the
/// payload exceeds 65 535 bytes, leaving the output untouched.
pub fn write_binary(out: &mut Vec<u8>, b: &Vec<u8>) -> (r: Result<(), MqttError>)
    ensures
        final(out).len() >= old(out).len(),
        if binary_fits(b@) {
            r == Ok::<(), MqttError>(()) && final(out)@ == old(out)@ + spec_binary_bytes(b@)
        } else {
            r == Err::<(), MqttError>(MqttError::BadArgument) && final(out)@ == old(out)@
        },
{
    if b.len() > STRING_MAX {
        return Err(MqttError::BadArgument);
    }
    write_u16_be(out, b.len() as u16);
    write_bytes(out, b.as_slice());
    assert(final(out)@ =~= old(out)@ + spec_binary_bytes(b@));
    Ok(())
}

/// Relies on `String::from_utf8`: succeeds exactly on valid UTF-8 and
/// returns the string those bytes spell.
#[verifier::external_body]
fn string_from_utf8(bytes: Vec<u8>) -> (r: Option<String>)
    ensures
        match r {
            Some(s) => valid_utf8(bytes@) && s@ == decode_utf8(bytes@),
            None => !valid_utf8(bytes@),
        },
{
    match String::from_utf8(bytes) {
        Ok(s) => Some(s),
        Err(_) => None,
    }
}

// ---------------------------------------------------------------------
// Executable reader
// ---------------------------------------------------------------------

/// A cursor over a fully received byte buffer. Decoders consume from
/// the front; `remaining()` is the unread suffix.
pub struct ByteReader {
    pub data: Vec<u8>,
    pub pos: usize,
}

impl ByteReader {
    /// The cursor never points past the end of the buffer.
    pub open spec fn wf(&self) -> bool {
        self.pos <= self.data@.len()
    }

    /// The unread bytes.
    pub open spec fn remaining(&self) -> Seq<u8> {
        self.data@.skip(self.pos as int)
    }

    /// Wrap a received buffer for reading from its start.
    pub fn new(data: Vec<u8>) -> (r: ByteReader)
        ensures
            r.wf(),
            r.remaining() == data@,
    {
        let r = ByteReader { data, pos: 0 };
        assert(r.remaining() =~= r.data@);
        r
    }

    /// How many bytes are left unread.
    pub fn remaining_len(&self) -> (n: usize)
        requires
            self.wf(),
        ensures
            n == self.remaining().len(),
    {
        self.data.len() - self.pos
    }

    /// Whether the buffer is exhausted.
    pub fn at_end(&self) -> (b: bool)
        requires
            self.wf(),
        ensures
            b == (self.remaining().len() == 0),
    {
        self.pos == self.data.len()
    }

    /// Read one byte; `Malformed` on a short read.
    pub fn read_u8(&mut self) -> (r: Result<u8, MqttError>)
        requires
            old(self).wf(),
        ensures
            final(self).wf(),
            final(self).data == old(self).data,
            match parse_u8(old(self).remaining()) {
                Some((v, rest)) => r == Ok::<u8, MqttError>(v) && final(self).remaining() == rest,
                None => r == Err::<u8, MqttError>(MqttError::Malformed) && *final(self) == *old(
                    self,
                ),
            },
    {
        if self.pos < self.data.len() {
            let b = self.data[self.pos];
            self.pos = self.pos + 1;
            assert(final(self).remaining() =~= old(self).remaining().skip(1));
            assert(old(self).remaining()[0] == b);
            Ok(b)
        } else {
            assert(old(self).remaining().len() == 0);
            Err(MqttError::Malformed)
        }
    }

    /// Read a big-endian two-byte integer; `Malformed` on a short read.
    pub fn read_u16(&mut self) -> (r: Result<u16, MqttError>)
        requires
            old(self).wf(),
        ensures
            final(self).wf(),
            final(self).data == old(self).data,
            match parse_u16_be(old(self).remaining()) {
                Some((v, rest)) => r == Ok::<u16, MqttError>(v) && final(self).remaining() == rest,
                None => r == Err::<u16, MqttError>(MqttError::Malformed) && *final(self) == *old(
                    self,
                ),
            },
    {
        if self.data.len() - self.pos >= 2 {
            let b0 = self.data[self.pos];
            let b1 = self.data[self.pos + 1];
            self.pos = self.pos + 2;
            assert(final(self).remaining() =~= old(self).remaining().skip(2));
            assert(old(self).remaining()[0] == b0 && old(self).remaining()[1] == b1);
            Ok(b0 as u16 * 256 + b1 as u16)
        } else {
            Err(MqttError::Malformed)
        }
    }

    /// Read a big-endian four-byte integer; `Malformed` on a short
    /// read.
    pub fn read_u32(&mut self) -> (r: Result<u32, MqttError>)
        requires
            old(self).wf(),
        ensures
            final(self).wf(),
            final(self).data == old(self).data,
            match parse_u32_be(old(self).remaining()) {
                Some((v, rest)) => r == Ok::<u32, MqttError>(v) && final(self).remaining() == rest,
                None => r == Err::<u32, MqttError>(MqttError::Malformed) && *final(self) == *old(
                    self,
                ),
            },
    {
        if self.data.len() - self.pos >= 4 {
            let b0 = self.data[self.pos];
            let b1 = self.data[self.pos + 1];
            let b2 = self.data[self.pos + 2];
            let b3 = self.data[self.pos + 3];
            self.pos = self.pos + 4;
            assert(final(self).remaining() =~= old(self).remaining().skip(4));
            assert(old(self).remaining()[0] == b0 && old(self).remaining()[1] == b1 && old(
                self,
            ).remaining()[2] == b2 && old(self).remaining()[3] == b3);
            Ok(b0 as u32 * 0x1000000 + b1 as u32 * 0x10000 + b2 as u32 * 256 + b3 as u32)
        } else {
            Err(MqttError::Malformed)
        }
    }

    /// Read a variable-byte integer of at most `max` more bytes.
    fn read_vbi_rec(&mut self, max: u8) -> (r: Result<u32, MqttError>)
        requires
            old(self).wf(),
            1 <= max <= 4,
        ensures
            final(self).wf(),
            final(self).data == old(self).data,
            match parse_vbi_rec(old(self).remaining(), max as nat) {
                Some((v, rest)) => r == Ok::<u32, MqttError>(v as u32) && v < vbi_bound(
                    max as nat,
                ) && final(self).remaining() == rest,
                None => r == Err::<u32, MqttError>(MqttError::Malformed),
            },
        decreases max,
    {
        proof {
            lemma_parse_vbi_rec_bound(old(self).remaining(), max as nat);
        }
        let b = match self.read_u8() {
            Ok(b) => b,
            Err(_) => {
                return Err(MqttError::Malformed);
            },
        };
        if b < 128 {
            Ok(b as u32)
        } else if max == 1 {
            Err(MqttError::Malformed)
        } else {
            match self.read_vbi_rec(max - 1) {
                Ok(v) => if v >= 1 {
                    Ok((b - 128) as u32 + 128 * v)
                } else {
                    Err(MqttError::Malformed)
                },
                Err(_) => Err(MqttError::Malformed),
            }
        }
    }

    /// Read a variable-byte integer: one to four bytes; `Malformed`
    /// when the input runs out or the fourth byte still carries the
    /// continuation bit.
    pub fn read_vbi(&mut self) -> (r: Result<u32, MqttError>)
        requires
            old(self).wf(),
        ensures
            final(self).wf(),
            final(self).data == old(self).data,
            match parse_vbi(old(self).remaining()) {
                Some((v, rest)) => r == Ok::<u32, MqttError>(v as u32) && v <= VBI_MAX
                    && final(self).remaining() == rest,
                None => r == Err::<u32, MqttError>(MqttError::Malformed),
            },
    {
        self.read_vbi_rec(4)
    }

    /// Detach the next `n` bytes as an owned buffer; `Malformed` when
    /// fewer are left.
    pub fn take(&mut self, n: usize) -> (r: Result<Vec<u8>, MqttError>)
        requires
            old(self).wf(),
        ensures
            final(self).wf(),
            final(self).data == old(self).data,
            match r {
                Ok(body) => old(self).remaining().len() >= n && body@ == old(
                    self,
                ).remaining().take(n as int) && final(self).remaining() == old(
                    self,
                ).remaining().skip(n as int),
                Err(e) => e == MqttError::Malformed && old(self).remaining().len() < n
                    && *final(self) == *old(self),
            },
    {
        if self.data.len() - self.pos >= n {
            let s = vstd::slice::slice_subrange(self.data.as_slice(), self.pos, self.pos + n);
            let body = vstd::slice::slice_to_vec(s);
            self.pos = self.pos + n;
            assert(body@ =~= old(self).remaining().take(n as int));
            assert(final(self).remaining() =~= old(self).remaining().skip(n as int));
            Ok(body)
        } else {
            Err(MqttError::Malformed)
        }
    }

    /// Read a UTF-8 string field; `Malformed` on a short read or
    /// invalid UTF-8.
    pub fn read_string(&mut self) -> (r: Result<String, MqttError>)
        requires
            old(self).wf(),
        ensures
            final(self).wf(),
            final(self).data == old(self).data,
            match parse_string(old(self).remaining()) {
                Some((cs, rest)) => (r matches Ok(s) && s@ == cs) && final(self).remaining()
                    == rest,
                None => r == Err::<String, MqttError>(MqttError::Malformed),
            },
    {
        let n = match self.read_u16() {
            Ok(n) => n,
            Err(_) => {
                return Err(MqttError::Malformed);
            },
        };
        let bytes = match self.take(n as usize) {
            Ok(b) => b,
            Err(_) => {
                return Err(MqttError::Malformed);
            },
        };
        match string_from_utf8(bytes) {
            Some(s) => Ok(s),
            None => Err(MqttError::Malformed),
        }
    }

    /// Read a binary-data field; `Malformed` on a short read.
    pub fn read_binary(&mut self) -> (r: Result<Vec<u8>, MqttError>)
        requires
            old(self).wf(),
        ensures
            final(self).wf(),
            final(self).data == old(self).data,
            match parse_binary(old(self).remaining()) {
                Some((bs, rest)) => (r matches Ok(b) && b@ == bs) && final(self).remaining()
                    == rest,
                None => r == Err::<Vec<u8>, MqttError>(MqttError::Malformed),
            },
    {
        let n = match self.read_u16() {
            Ok(n) => n,
            Err(_) => {
                return Err(MqttError::Malformed);
            },
        };
        match self.take(n as usize) {
            Ok(b) => Ok(b),
            Err(_) => Err(MqttError::Malformed),
        }
    }
}

} // verus!
