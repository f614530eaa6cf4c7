//! The binary wire codec.
//!
//! The wire format is a compact schema-less encoding: field order is the
//! implicit schema. Unsigned integers travel as little-endian base-128
//! varints, signed integers are zigzag-mapped to unsigned first, `bool` is a
//! single byte, and byte strings and text travel length-prefixed. Every
//! encoder has a matching specification-level encoder and decoder, and a
//! round-trip lemma ties the two together.

use vstd::prelude::*;
use vstd::slice::slice_index_get;
use vstd::slice::slice_subrange;
use vstd::slice::slice_to_vec;
use vstd::utf8::decode_utf8;
use vstd::utf8::encode_utf8;
use vstd::utf8::valid_utf8;

verus! {

/// Why a byte payload was rejected.
#[derive(Clone, Copy, Debug, PartialEq, Eq, Structural)]
pub enum DecodeError {
    /// The bytes are not a well-formed encoding of the expected type.
    Malformed,
    /// An object kind tag had no registered decoder.
    UnknownKind,
}

/// Little-endian base-128 encoding of an unsigned integer: seven value bits
/// per byte, with the high bit set on every byte but the last.
pub open spec fn spec_enc_varint(v: nat) -> Seq<u8>
    decreases v,
{
    if v < 128 {
        seq![v as u8]
    } else {
        seq![(v % 128 + 128) as u8] + spec_enc_varint(v / 128)
    }
}

/// Reads one varint from the front of `bytes`: the value and how many bytes
/// it occupied.
pub open spec fn spec_dec_varint(bytes: Seq<u8>) -> Option<(nat, int)>
    decreases bytes.len(),
{
    if bytes.len() == 0 {
        None
    } else if bytes[0] < 128 {
        Some((bytes[0] as nat, 1))
    } else {
        match spec_dec_varint(bytes.skip(1)) {
            None => None,
            Some((v, l)) => Some(((bytes[0] - 128) as nat + 128 * v, l + 1)),
        }
    }
}

/// A successful varint decode consumes between one byte and the whole input.
pub proof fn lemma_dec_varint_bounds(bytes: Seq<u8>)
    ensures
        spec_dec_varint(bytes) matches Some(d) ==> 1 <= d.1 <= bytes.len(),
    decreases bytes.len(),
{
    if bytes.len() > 0 && bytes[0] >= 128 {
        lemma_dec_varint_bounds(bytes.skip(1));
    }
}

/// Concatenation of byte strings is associative.
pub proof fn lemma_seq_assoc(a: Seq<u8>, b: Seq<u8>, c: Seq<u8>)
    ensures
        (a + b) + c == a + (b + c),
{
    assert((a + b) + c =~= a + (b + c));
}

/// Skipping past a leading part of a concatenation leaves the rest.
pub proof fn lemma_skip_concat(a: Seq<u8>, b: Seq<u8>)
    ensures
        (a + b).skip(a.len() as int) == b,
{
    assert((a + b).skip(a.len() as int) =~= b);
}

/// Two skips compose into one.
pub proof fn lemma_skip_two(s: Seq<u8>, m: int, n: int)
    requires
        0 <= m,
        0 <= n,
        m + n <= s.len(),
    ensures
        s.skip(m).skip(n) == s.skip(m + n),
{
    assert(s.skip(m).skip(n) =~= s.skip(m + n));
}

/// A successful `u32` decode consumes between one byte and the whole input.
pub proof fn lemma_dec_u32_bounds(bytes: Seq<u8>)
    ensures
        spec_dec_u32(bytes) matches Some(d) ==> 1 <= d.1 <= bytes.len(),
{
    lemma_dec_varint_bounds(bytes);
}

/// A successful `u64` decode consumes between one byte and the whole input.
pub proof fn lemma_dec_u64_bounds(bytes: Seq<u8>)
    ensures
        spec_dec_u64(bytes) matches Some(d) ==> 1 <= d.1 <= bytes.len(),
{
    lemma_dec_varint_bounds(bytes);
}

/// A successful `i64` decode consumes between one byte and the whole input.
pub proof fn lemma_dec_i64_bounds(bytes: Seq<u8>)
    ensures
        spec_dec_i64(bytes) matches Some(d) ==> 1 <= d.1 <= bytes.len(),
{
    lemma_dec_varint_bounds(bytes);
}

/// A successful `bool` decode consumes one byte of the input.
pub proof fn lemma_dec_bool_bounds(bytes: Seq<u8>)
    ensures
        spec_dec_bool(bytes) matches Some(d) ==> 1 <= d.1 <= bytes.len(),
{
}

/// A successful byte-string decode consumes between one byte and the whole
/// input.
pub proof fn lemma_dec_bytes_bounds(bytes: Seq<u8>)
    ensures
        spec_dec_bytes(bytes) matches Some(d) ==> 1 <= d.1 <= bytes.len(),
{
    lemma_dec_varint_bounds(bytes);
}

/// A successful string decode consumes between one byte and the whole input.
pub proof fn lemma_dec_str_bounds(bytes: Seq<u8>)
    ensures
        spec_dec_str(bytes) matches Some(d) ==> 1 <= d.1 <= bytes.len(),
{
    lemma_dec_bytes_bounds(bytes);
}

/// Decoding reads back exactly the value that encoding wrote, whatever
/// follows it in the buffer.
pub proof fn lemma_varint_roundtrip(v: nat, rest: Seq<u8>)
    ensures
        spec_dec_varint(spec_enc_varint(v) + rest) == Some(
            (v, spec_enc_varint(v).len() as int),
        ),
    decreases v,
{
    let enc = spec_enc_varint(v);
    if v < 128 {
        assert((enc + rest)[0] == v as u8);
    } else {
        let b = (v % 128 + 128) as u8;
        let tail = spec_enc_varint(v / 128);
        assert(enc == seq![b] + tail);
        assert((enc + rest).skip(1) =~= tail + rest);
        lemma_varint_roundtrip(v / 128, rest);
        assert((b - 128) as nat + 128 * (v / 128) == v) by {
            assert(v % 128 + 128 * (v / 128) == v) by (nonlinear_arith);
        };
    }
}

/// Appends the varint encoding of `v` to `out`.
pub fn encode_varint_u64(out: &mut Vec<u8>, v: u64)
    ensures
        final(out)@ == old(out)@ + spec_enc_varint(v as nat),
    decreases v,
{
    if v < 128 {
        out.push(v as u8);
        assert(out@ =~= old(out)@ + spec_enc_varint(v as nat));
    } else {
        out.push((v % 128 + 128) as u8);
        let ghost mid = out@;
        encode_varint_u64(out, v / 128);
        assert(out@ =~= old(out)@ + spec_enc_varint(v as nat)) by {
            assert(spec_enc_varint(v as nat) == seq![(v % 128 + 128) as u8] + spec_enc_varint(
                v as nat / 128,
            ));
            assert(out@ == mid + spec_enc_varint((v / 128) as nat));
        };
    }
}

/// Reads one varint starting at `pos`, if the bytes there hold one and its
/// value fits in a `u64`.
pub fn decode_varint_u64(bytes: &[u8], pos: usize) -> (r: Option<(u64, usize)>)
    requires
        pos <= bytes@.len(),
    ensures
        match spec_dec_varint(bytes@.skip(pos as int)) {
            None => r is None,
            Some(d) => if d.0 <= u64::MAX {
                r == Some((d.0 as u64, (pos + d.1) as usize))
            } else {
                r is None
            },
        },
    decreases bytes@.len() - pos,
{
    proof {
        lemma_dec_varint_bounds(bytes@.skip(pos as int));
    }
    if pos >= bytes.len() {
        return None;
    }
    let b = *slice_index_get(bytes, pos);
    if b < 128 {
        Some((b as u64, pos + 1))
    } else {
        let low = (b - 128) as u64;
        assert(bytes@.skip(pos as int).skip(1) =~= bytes@.skip(pos as int + 1));
        match decode_varint_u64(bytes, pos + 1) {
            None => {
                proof {
                    let d = spec_dec_varint(bytes@.skip(pos as int));
                    if d is Some {
                        let dv = d->Some_0.0;
                        let inner = spec_dec_varint(bytes@.skip(pos as int + 1));
                        let iv = inner->Some_0.0;
                        assert(iv > u64::MAX);
                        assert(dv >= 128 * iv >= iv) by (nonlinear_arith)
                            requires
                                dv == (b - 128) as nat + 128 * iv,
                        ;
                    }
                }
                None
            },
            Some((v, p)) => {
                if v <= (u64::MAX - low) / 128 {
                    assert(low + 128 * v <= u64::MAX) by (nonlinear_arith)
                        requires
                            v <= ((u64::MAX - low) / 128) as nat,
                            low < 128,
                    ;
                    Some((low + 128 * v, p))
                } else {
                    assert(low as nat + 128 * (v as nat) > u64::MAX) by (nonlinear_arith)
                        requires
                            v > ((u64::MAX - low) / 128) as nat,
                            v <= u64::MAX,
                            low < 128,
                    ;
                    None
                }
            },
        }
    }
}

/// Reads one varint whose value must fit in a `u32`.
pub open spec fn spec_dec_u32(bytes: Seq<u8>) -> Option<(u32, int)> {
    match spec_dec_varint(bytes) {
        None => None,
        Some(d) => if d.0 <= u32::MAX {
            Some((d.0 as u32, d.1))
        } else {
            None
        },
    }
}

/// Reads one varint whose value must fit in a `u64`.
pub open spec fn spec_dec_u64(bytes: Seq<u8>) -> Option<(u64, int)> {
    match spec_dec_varint(bytes) {
        None => None,
        Some(d) => if d.0 <= u64::MAX {
            Some((d.0 as u64, d.1))
        } else {
            None
        },
    }
}

pub proof fn lemma_u32_roundtrip(v: u32, rest: Seq<u8>)
    ensures
        spec_dec_u32(spec_enc_varint(v as nat) + rest) == Some(
            (v, spec_enc_varint(v as nat).len() as int),
        ),
{
    lemma_varint_roundtrip(v as nat, rest);
}

pub proof fn lemma_u64_roundtrip(v: u64, rest: Seq<u8>)
    ensures
        spec_dec_u64(spec_enc_varint(v as nat) + rest) == Some(
            (v, spec_enc_varint(v as nat).len() as int),
        ),
{
    lemma_varint_roundtrip(v as nat, rest);
}

/// Reads one varint starting at `pos`, if its value fits in a `u32`.
pub fn decode_u32(bytes: &[u8], pos: usize) -> (r: Option<(u32, usize)>)
    requires
        pos <= bytes@.len(),
    ensures
        match spec_dec_u32(bytes@.skip(pos as int)) {
            None => r is None,
            Some(d) => r == Some((d.0, (pos + d.1) as usize)),
        },
{
    match decode_varint_u64(bytes, pos) {
        None => None,
        Some((v, p)) => {
            if v <= u32::MAX as u64 {
                Some((v as u32, p))
            } else {
                None
            }
        },
    }
}

/// The zigzag map from signed to unsigned: non-negative values go to the even
/// numbers, negative values to the odd ones.
pub open spec fn spec_zigzag(v: int) -> nat {
    if v >= 0 {
        (2 * v) as nat
    } else {
        (-2 * v - 1) as nat
    }
}

/// The inverse of the zigzag map.
pub open spec fn spec_unzigzag(n: nat) -> int {
    if n % 2 == 0 {
        (n / 2) as int
    } else {
        -1 - ((n - 1) as nat / 2)
    }
}

pub proof fn lemma_zigzag_inverse(v: int)
    ensures
        spec_unzigzag(spec_zigzag(v)) == v,
{
}

/// The varint encoding of the zigzag image of a signed integer.
pub open spec fn spec_enc_i64(v: int) -> Seq<u8> {
    spec_enc_varint(spec_zigzag(v))
}

/// Reads one zigzag varint whose value must fit in an `i64`.
pub open spec fn spec_dec_i64(bytes: Seq<u8>) -> Option<(i64, int)> {
    match spec_dec_varint(bytes) {
        None => None,
        Some(d) => if d.0 <= u64::MAX {
            Some((spec_unzigzag(d.0) as i64, d.1))
        } else {
            None
        },
    }
}

pub proof fn lemma_i64_roundtrip(v: i64, rest: Seq<u8>)
    ensures
        spec_dec_i64(spec_enc_i64(v as int) + rest) == Some(
            (v, spec_enc_i64(v as int).len() as int),
        ),
{
    lemma_varint_roundtrip(spec_zigzag(v as int), rest);
    lemma_zigzag_inverse(v as int);
}

/// Appends the zigzag varint encoding of `v` to `out`.
pub fn encode_i64(out: &mut Vec<u8>, v: i64)
    ensures
        final(out)@ == old(out)@ + spec_enc_i64(v as int),
{
    let z: u64 = if v >= 0 {
        (v as u64) * 2
    } else {
        let m = (-(v + 1)) as u64;
        m * 2 + 1
    };
    assert(z as nat == spec_zigzag(v as int));
    encode_varint_u64(out, z);
}

/// Reads one zigzag varint starting at `pos`.
pub fn decode_i64(bytes: &[u8], pos: usize) -> (r: Option<(i64, usize)>)
    requires
        pos <= bytes@.len(),
    ensures
        match spec_dec_i64(bytes@.skip(pos as int)) {
            None => r is None,
            Some(d) => r == Some((d.0, (pos + d.1) as usize)),
        },
{
    match decode_varint_u64(bytes, pos) {
        None => None,
        Some((z, p)) => {
            let v: i64 = if z % 2 == 0 {
                (z / 2) as i64
            } else {
                let m = ((z - 1) / 2) as i64;
                -1 - m
            };
            assert(v as int == spec_unzigzag(z as nat));
            Some((v, p))
        },
    }
}

/// A `bool` travels as a single byte, zero or one.
pub open spec fn spec_enc_bool(b: bool) -> Seq<u8> {
    if b {
        seq![1u8]
    } else {
        seq![0u8]
    }
}

pub open spec fn spec_dec_bool(bytes: Seq<u8>) -> Option<(bool, int)> {
    if bytes.len() == 0 {
        None
    } else if bytes[0] == 0 {
        Some((false, 1))
    } else if bytes[0] == 1 {
        Some((true, 1))
    } else {
        None
    }
}

pub proof fn lemma_bool_roundtrip(b: bool, rest: Seq<u8>)
    ensures
        spec_dec_bool(spec_enc_bool(b) + rest) == Some((b, 1int)),
{
    assert((spec_enc_bool(b) + rest)[0] == spec_enc_bool(b)[0]);
}

/// Appends the one-byte encoding of `b` to `out`.
pub fn encode_bool(out: &mut Vec<u8>, b: bool)
    ensures
        final(out)@ == old(out)@ + spec_enc_bool(b),
{
    out.push(if b {
        1
    } else {
        0
    });
    assert(out@ =~= old(out)@ + spec_enc_bool(b));
}

/// Reads one `bool` byte starting at `pos`.
pub fn decode_bool(bytes: &[u8], pos: usize) -> (r: Option<(bool, usize)>)
    requires
        pos <= bytes@.len(),
    ensures
        match spec_dec_bool(bytes@.skip(pos as int)) {
            None => r is None,
            Some(d) => r == Some((d.0, (pos + d.1) as usize)),
        },
{
    if pos >= bytes.len() {
        return None;
    }
    let b = *slice_index_get(bytes, pos);
    if b == 0 {
        Some((false, pos + 1))
    } else if b == 1 {
        Some((true, pos + 1))
    } else {
        None
    }
}

/// A byte string travels as its length, then its bytes.
pub open spec fn spec_enc_bytes(data: Seq<u8>) -> Seq<u8> {
    spec_enc_varint(data.len() as nat) + data
}

pub open spec fn spec_dec_bytes(bytes: Seq<u8>) -> Option<(Seq<u8>, int)> {
    match spec_dec_varint(bytes) {
        None => None,
        Some(d) => if d.1 + d.0 <= bytes.len() {
            Some((bytes.subrange(d.1, d.1 + d.0), d.1 + d.0))
        } else {
            None
        },
    }
}

pub proof fn lemma_bytes_roundtrip(data: Seq<u8>, rest: Seq<u8>)
    ensures
        spec_dec_bytes(spec_enc_bytes(data) + rest) == Some(
            (data, spec_enc_bytes(data).len() as int),
        ),
{
    let whole = spec_enc_bytes(data) + rest;
    let pre = spec_enc_varint(data.len() as nat);
    assert(whole =~= pre + (data + rest));
    lemma_varint_roundtrip(data.len() as nat, data + rest);
    assert(whole.subrange(pre.len() as int, (pre.len() + data.len()) as int) =~= data);
}

/// Appends the length-prefixed encoding of `data` to `out`.
pub fn encode_bytes(out: &mut Vec<u8>, data: &Vec<u8>)
    ensures
        final(out)@ == old(out)@ + spec_enc_bytes(data@),
{
    encode_varint_u64(out, data.len() as u64);
    let ghost mid = out@;
    let mut i: usize = 0;
    while i < data.len()
        invariant
            i <= data@.len(),
            out@ == mid + data@.subrange(0, i as int),
        decreases data@.len() - i,
    {
        out.push(data[i]);
        assert(out@ =~= mid + data@.subrange(0, i + 1));
        i = i + 1;
    }
    assert(data@.subrange(0, data@.len() as int) =~= data@);
    assert(out@ =~= old(out)@ + spec_enc_bytes(data@));
}

/// Reads one length-prefixed byte string starting at `pos`.
pub fn decode_bytes(bytes: &[u8], pos: usize) -> (r: Option<(Vec<u8>, usize)>)
    requires
        pos <= bytes@.len(),
    ensures
        match spec_dec_bytes(bytes@.skip(pos as int)) {
            None => r is None,
            Some(d) => r matches Some(rv) && rv.0@ == d.0 && rv.1 == pos + d.1,
        },
{
    proof {
        lemma_dec_varint_bounds(bytes@.skip(pos as int));
    }
    let total = bytes.len();
    assert(bytes@.len() <= usize::MAX);
    match decode_varint_u64(bytes, pos) {
        None => None,
        Some((n, p)) => {
            if n <= (total - p) as u64 {
                let end = p + n as usize;
                let data = slice_to_vec(slice_subrange(bytes, p, end));
                assert(bytes@.subrange(p as int, end as int) =~= bytes@.skip(pos as int).subrange(
                    p - pos,
                    end - pos,
                ));
                Some((data, end))
            } else {
                None
            }
        },
    }
}

/// Text travels as its UTF-8 bytes, length-prefixed.
pub open spec fn spec_enc_str(s: Seq<char>) -> Seq<u8> {
    spec_enc_bytes(encode_utf8(s))
}

pub open spec fn spec_dec_str(bytes: Seq<u8>) -> Option<(Seq<char>, int)> {
    match spec_dec_bytes(bytes) {
        None => None,
        Some(d) => if valid_utf8(d.0) {
            Some((decode_utf8(d.0), d.1))
        } else {
            None
        },
    }
}

pub proof fn lemma_str_roundtrip(s: Seq<char>, rest: Seq<u8>)
    ensures
        spec_dec_str(spec_enc_str(s) + rest) == Some((s, spec_enc_str(s).len() as int)),
{
    lemma_bytes_roundtrip(encode_utf8(s), rest);
    vstd::utf8::encode_utf8_valid_utf8(s);
    vstd::utf8::encode_utf8_decode_utf8(s);
}

/// Relies on `String::from_utf8`: it succeeds exactly on valid UTF-8 input
/// and returns the text those bytes spell.
#[verifier::external_body]
fn string_from_utf8(bytes: Vec<u8>) -> (r: Option<String>)
    ensures
        match r {
            Some(s) => valid_utf8(bytes@) && s@ == decode_utf8(bytes@),
            None => !valid_utf8(bytes@),
        },
{
    String::from_utf8(bytes).ok()
}

/// Appends the length-prefixed UTF-8 encoding of `s` to `out`.
pub fn encode_string(out: &mut Vec<u8>, s: &str)
    ensures
        final(out)@ == old(out)@ + spec_enc_str(s@),
{
    let data = s.as_bytes_vec();
    encode_bytes(out, &data);
}

/// Reads one length-prefixed UTF-8 string starting at `pos`.
pub fn decode_string(bytes: &[u8], pos: usize) -> (r: Option<(String, usize)>)
    requires
        pos <= bytes@.len(),
    ensures
        match spec_dec_str(bytes@.skip(pos as int)) {
            None => r is None,
            Some(d) => r matches Some(rv) && rv.0@ == d.0 && rv.1 == pos + d.1,
        },
{
    match decode_bytes(bytes, pos) {
        None => None,
        Some((data, p)) => {
            match string_from_utf8(data) {
                None => None,
                Some(s) => Some((s, p)),
            }
        },
    }
}

} // verus!
