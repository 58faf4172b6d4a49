//! The Borsh binary layout of the fields that the program's accounts hold: little-endian
//! integers, 32-byte keys, `Option` as a 0/1 tag, and strings as a `u32` byte length followed by
//! UTF-8. Each reader consumes its field from the front of a byte cursor, as Borsh's
//! `deserialize(&mut &[u8])` does, also when it fails; each writer appends the field's encoding.
use vstd::prelude::*;
use vstd::bytes::*;
use vstd::utf8::*;
use vstd::string::StringSliceAdditionalSpecFns;
use crate::pubkey::Pubkey;

verus! {

/// Why bytes do not decode as a field.
#[derive(Clone, Copy, Debug, PartialEq, Eq, Structural)]
pub enum DecodeError {
    /// The input ends before the field does.
    UnexpectedEnd,
    /// An `Option` tag byte other than 0 or 1.
    InvalidOptionTag(u8),
    /// String bytes that are not valid UTF-8.
    InvalidUtf8,
}

/// Why a value cannot be encoded.
#[derive(Clone, Copy, Debug, PartialEq, Eq, Structural)]
pub enum EncodeError {
    /// A string whose UTF-8 length does not fit the `u32` length prefix.
    LengthOverflow,
}

/// What reading a field gives: the value or the error, and the bytes left in the cursor.
/// A read that runs out of input uses it up, as Borsh's reads from a byte slice do.
pub type Decoded<T> = (Result<T, DecodeError>, Seq<u8>);

/// `s` is what remains of `t` after some bytes are taken from its front.
pub open spec fn is_suffix_of(s: Seq<u8>, t: Seq<u8>) -> bool {
    s.len() <= t.len() && s == t.skip(t.len() - s.len())
}

/// The first `n` bytes and what follows them.
pub open spec fn spec_take(s: Seq<u8>, n: nat) -> Decoded<Seq<u8>> {
    if n <= s.len() {
        (Ok(s.take(n as int)), s.skip(n as int))
    } else {
        (Err(DecodeError::UnexpectedEnd), Seq::empty())
    }
}

pub open spec fn spec_read_u8(s: Seq<u8>) -> Decoded<u8> {
    if 1 <= s.len() {
        (Ok(s[0]), s.skip(1))
    } else {
        (Err(DecodeError::UnexpectedEnd), Seq::empty())
    }
}

pub open spec fn spec_read_u32(s: Seq<u8>) -> Decoded<u32> {
    if 4 <= s.len() {
        (Ok(spec_u32_from_le_bytes(s.take(4))), s.skip(4))
    } else {
        (Err(DecodeError::UnexpectedEnd), Seq::empty())
    }
}

pub open spec fn spec_read_u64(s: Seq<u8>) -> Decoded<u64> {
    if 8 <= s.len() {
        (Ok(spec_u64_from_le_bytes(s.take(8))), s.skip(8))
    } else {
        (Err(DecodeError::UnexpectedEnd), Seq::empty())
    }
}

/// An `i64` is the two's-complement reading of the little-endian `u64`.
pub open spec fn spec_read_i64(s: Seq<u8>) -> Decoded<i64> {
    match spec_read_u64(s) {
        (Ok(v), rest) => (Ok(v as i64), rest),
        (Err(e), rest) => (Err(e), rest),
    }
}

pub open spec fn spec_read_pubkey(s: Seq<u8>) -> Decoded<Seq<u8>> {
    spec_take(s, 32)
}

/// A tag byte 0 (no key) or 1 (a key follows); another tag is an error, read past the tag.
pub open spec fn spec_read_option_pubkey(s: Seq<u8>) -> Decoded<Option<Seq<u8>>> {
    match spec_read_u8(s) {
        (Err(e), rest) => (Err(e), rest),
        (Ok(tag), rest) => if tag == 0 {
            (Ok(None), rest)
        } else if tag == 1 {
            match spec_read_pubkey(rest) {
                (Ok(key), rest2) => (Ok(Some(key)), rest2),
                (Err(e), rest2) => (Err(e), rest2),
            }
        } else {
            (Err(DecodeError::InvalidOptionTag(tag)), rest)
        },
    }
}

/// A `u32` byte length, then that many bytes of UTF-8; bytes that are not UTF-8 are an error,
/// read past the bytes.
pub open spec fn spec_read_string(s: Seq<u8>) -> Decoded<Seq<char>> {
    match spec_read_u32(s) {
        (Err(e), rest) => (Err(e), rest),
        (Ok(n), rest) => match spec_take(rest, n as nat) {
            (Err(e), rest2) => (Err(e), rest2),
            (Ok(bytes), rest2) => if valid_utf8(bytes) {
                (Ok(decode_utf8(bytes)), rest2)
            } else {
                (Err(DecodeError::InvalidUtf8), rest2)
            },
        },
    }
}

pub open spec fn spec_write_i64(v: i64) -> Seq<u8> {
    spec_u64_to_le_bytes(v as u64)
}

pub open spec fn spec_write_option_pubkey(key: Option<Seq<u8>>) -> Seq<u8> {
    match key {
        None => seq![0u8],
        Some(k) => seq![1u8] + k,
    }
}

/// Whether a string's UTF-8 length fits the `u32` length prefix.
pub open spec fn string_fits(chars: Seq<char>) -> bool {
    encode_utf8(chars).len() <= u32::MAX
}

pub open spec fn spec_write_string(chars: Seq<char>) -> Seq<u8> {
    spec_u32_to_le_bytes(encode_utf8(chars).len() as u32) + encode_utf8(chars)
}

// ----- readers -----

/// A cursor is a suffix of itself.
pub proof fn lemma_suffix_refl(s: Seq<u8>)
    ensures
        is_suffix_of(s, s),
{
    assert(s.skip(0) =~= s);
}

/// What remains of what remains of `c` remains of `c`.
pub proof fn lemma_suffix_trans(a: Seq<u8>, b: Seq<u8>, c: Seq<u8>)
    requires
        is_suffix_of(a, b),
        is_suffix_of(b, c),
    ensures
        is_suffix_of(a, c),
{
    assert(a =~= c.skip(c.len() - a.len()));
}

/// Moves the cursor past its first `n` bytes.
fn advance(buf: &mut &[u8], n: usize)
    requires
        n <= old(buf)@.len(),
    ensures
        final(buf)@ == old(buf)@.skip(n as int),
        is_suffix_of(final(buf)@, old(buf)@),
{
    let len = buf.len();
    *buf = vstd::slice::slice_subrange(*buf, n, len);
    assert(buf@ =~= old(buf)@.skip(n as int));
}

/// Uses up the cursor.
fn exhaust(buf: &mut &[u8])
    ensures
        final(buf)@ == Seq::<u8>::empty(),
        is_suffix_of(final(buf)@, old(buf)@),
{
    let len = buf.len();
    *buf = vstd::slice::slice_subrange(*buf, len, len);
    assert(buf@ =~= Seq::<u8>::empty());
    assert(old(buf)@.skip(old(buf)@.len() as int) =~= Seq::<u8>::empty());
}

pub fn read_u8(buf: &mut &[u8]) -> (res: Result<u8, DecodeError>)
    ensures
        spec_read_u8(old(buf)@) == (res, final(buf)@),
        is_suffix_of(final(buf)@, old(buf)@),
{
    if buf.len() < 1 {
        exhaust(buf);
        return Err(DecodeError::UnexpectedEnd);
    }
    let v = buf[0];
    advance(buf, 1);
    Ok(v)
}

pub fn read_u32(buf: &mut &[u8]) -> (res: Result<u32, DecodeError>)
    ensures
        spec_read_u32(old(buf)@) == (res, final(buf)@),
        is_suffix_of(final(buf)@, old(buf)@),
{
    if buf.len() < 4 {
        exhaust(buf);
        return Err(DecodeError::UnexpectedEnd);
    }
    let v = u32_from_le_bytes(vstd::slice::slice_subrange(*buf, 0, 4));
    assert(buf@.subrange(0, 4) =~= buf@.take(4));
    advance(buf, 4);
    Ok(v)
}

pub fn read_u64(buf: &mut &[u8]) -> (res: Result<u64, DecodeError>)
    ensures
        spec_read_u64(old(buf)@) == (res, final(buf)@),
        is_suffix_of(final(buf)@, old(buf)@),
{
    if buf.len() < 8 {
        exhaust(buf);
        return Err(DecodeError::UnexpectedEnd);
    }
    let v = u64_from_le_bytes(vstd::slice::slice_subrange(*buf, 0, 8));
    assert(buf@.subrange(0, 8) =~= buf@.take(8));
    advance(buf, 8);
    Ok(v)
}

pub fn read_i64(buf: &mut &[u8]) -> (res: Result<i64, DecodeError>)
    ensures
        spec_read_i64(old(buf)@) == (res, final(buf)@),
        is_suffix_of(final(buf)@, old(buf)@),
{
    match read_u64(buf) {
        Ok(v) => Ok(v as i64),
        Err(e) => Err(e),
    }
}

/// A key read by its bytes.
pub open spec fn key_result_view(res: Result<Pubkey, DecodeError>) -> Result<Seq<u8>, DecodeError> {
    match res {
        Ok(k) => Ok(k@),
        Err(e) => Err(e),
    }
}

pub fn read_pubkey(buf: &mut &[u8]) -> (res: Result<Pubkey, DecodeError>)
    ensures
        spec_read_pubkey(old(buf)@) == (key_result_view(res), final(buf)@),
        is_suffix_of(final(buf)@, old(buf)@),
{
    if buf.len() < 32 {
        exhaust(buf);
        return Err(DecodeError::UnexpectedEnd);
    }
    let mut a = [0u8; 32];
    let mut i: usize = 0;
    while i < 32
        invariant
            i <= 32,
            buf@.len() >= 32,
            forall|j: int| 0 <= j < i ==> a@[j] == buf@[j],
        decreases 32 - i,
    {
        a[i] = buf[i];
        i = i + 1;
    }
    assert(a@ =~= buf@.take(32));
    advance(buf, 32);
    Ok(Pubkey(a))
}

/// An optional key taken by its bytes.
pub open spec fn option_key_view(k: Option<Pubkey>) -> Option<Seq<u8>> {
    match k {
        Some(key) => Some(key@),
        None => None,
    }
}

/// An optional key read by its bytes.
pub open spec fn option_key_result_view(res: Result<Option<Pubkey>, DecodeError>) -> Result<Option<Seq<u8>>, DecodeError> {
    match res {
        Ok(k) => Ok(option_key_view(k)),
        Err(e) => Err(e),
    }
}

pub fn read_option_pubkey(buf: &mut &[u8]) -> (res: Result<Option<Pubkey>, DecodeError>)
    ensures
        spec_read_option_pubkey(old(buf)@) == (option_key_result_view(res), final(buf)@),
        is_suffix_of(final(buf)@, old(buf)@),
{
    let ghost start = buf@;
    let tag = match read_u8(buf) {
        Ok(t) => t,
        Err(e) => return Err(e),
    };
    if tag == 0 {
        Ok(None)
    } else if tag == 1 {
        let ghost mid = buf@;
        let r = read_pubkey(buf);
        proof {
            lemma_suffix_trans(buf@, mid, start);
        }
        match r {
            Ok(k) => Ok(Some(k)),
            Err(e) => Err(e),
        }
    } else {
        Err(DecodeError::InvalidOptionTag(tag))
    }
}

/// A string read by its characters.
pub open spec fn string_result_view(res: Result<String, DecodeError>) -> Result<Seq<char>, DecodeError> {
    match res {
        Ok(s) => Ok(s@),
        Err(e) => Err(e),
    }
}

pub fn read_string(buf: &mut &[u8]) -> (res: Result<String, DecodeError>)
    ensures
        spec_read_string(old(buf)@) == (string_result_view(res), final(buf)@),
        is_suffix_of(final(buf)@, old(buf)@),
{
    let ghost start = buf@;
    let n = match read_u32(buf) {
        Ok(n) => n as usize,
        Err(e) => return Err(e),
    };
    let ghost mid = buf@;
    if buf.len() < n {
        exhaust(buf);
        proof {
            lemma_suffix_trans(buf@, mid, start);
        }
        return Err(DecodeError::UnexpectedEnd);
    }
    let bytes = vstd::slice::slice_subrange(*buf, 0, n);
    assert(bytes@ =~= buf@.take(n as int));
    let text = str_from_utf8(bytes);
    advance(buf, n);
    proof {
        lemma_suffix_trans(buf@, mid, start);
    }
    match text {
        Some(t) => {
            proof {
                broadcast use encode_utf8_decode_utf8;
            }
            Ok(t.to_owned())
        },
        None => Err(DecodeError::InvalidUtf8),
    }
}

/// Calls `std::str::from_utf8`. Claimed, as its documentation says: it succeeds exactly when the
/// bytes are valid UTF-8 (`valid_utf8`), and the string it gives back is made of those bytes.
#[verifier::external_body]
fn str_from_utf8(bytes: &[u8]) -> (res: Option<&str>)
    ensures
        res is Some <==> valid_utf8(bytes@),
        res matches Some(s) ==> s.spec_bytes() == bytes@,
{
    std::str::from_utf8(bytes).ok()
}

// ----- writers -----

/// Appends bytes to the output.
pub fn write_bytes(out: &mut Vec<u8>, bytes: &[u8])
    ensures
        final(out)@ == old(out)@ + bytes@,
{
    let mut i: usize = 0;
    while i < bytes.len()
        invariant
            i <= bytes@.len(),
            out@ == old(out)@ + bytes@.take(i as int),
        decreases bytes@.len() - i,
    {
        out.push(bytes[i]);
        i = i + 1;
        assert(out@ =~= old(out)@ + bytes@.take(i as int));
    }
    assert(bytes@.take(bytes@.len() as int) =~= bytes@);
}

pub fn write_u8(out: &mut Vec<u8>, v: u8)
    ensures
        final(out)@ == old(out)@.push(v),
{
    out.push(v);
}

pub fn write_u64(out: &mut Vec<u8>, v: u64)
    ensures
        final(out)@ == old(out)@ + spec_u64_to_le_bytes(v),
{
    let b = u64_to_le_bytes(v);
    write_bytes(out, b.as_slice());
}

pub fn write_i64(out: &mut Vec<u8>, v: i64)
    ensures
        final(out)@ == old(out)@ + spec_write_i64(v),
{
    write_u64(out, v as u64);
}

pub fn write_pubkey(out: &mut Vec<u8>, key: &Pubkey)
    ensures
        final(out)@ == old(out)@ + key@,
{
    write_bytes(out, key.0.as_slice());
}

pub fn write_option_pubkey(out: &mut Vec<u8>, key: &Option<Pubkey>)
    ensures
        final(out)@ == old(out)@ + spec_write_option_pubkey(option_key_view(*key)),
{
    match key {
        None => {
            write_u8(out, 0);
            assert(out@ =~= old(out)@ + seq![0u8]);
        },
        Some(k) => {
            write_u8(out, 1);
            write_pubkey(out, k);
            assert(out@ =~= old(out)@ + (seq![1u8] + k@));
        },
    }
}

/// Appends a length-prefixed string, or leaves the output as it was when the string's UTF-8
/// length does not fit in a `u32`.
pub fn write_string(out: &mut Vec<u8>, s: &str) -> (res: Result<(), EncodeError>)
    ensures
        res is Ok <==> string_fits(s@),
        res is Ok ==> final(out)@ == old(out)@ + spec_write_string(s@),
        res is Err ==> final(out)@ == old(out)@,
{
    let bytes = s.as_bytes();
    let n = bytes.len();
    if n > 0xffff_ffff {
        return Err(EncodeError::LengthOverflow);
    }
    let prefix = u32_to_le_bytes(n as u32);
    write_bytes(out, prefix.as_slice());
    write_bytes(out, bytes);
    assert(out@ =~= old(out)@ + spec_write_string(s@));
    Ok(())
}

// ----- laws of the layout -----

/// Reading a `u64` back from its encoding gives the value, and leaves what followed.
pub proof fn lemma_u64_roundtrip(v: u64, rest: Seq<u8>)
    ensures
        spec_read_u64(spec_u64_to_le_bytes(v) + rest) == (Ok::<u64, DecodeError>(v), rest),
{
    lemma_auto_spec_u64_to_from_le_bytes();
    let b = spec_u64_to_le_bytes(v);
    assert((b + rest).take(8) =~= b);
    assert((b + rest).skip(8) =~= rest);
}

/// Reading an `i64` back from its encoding gives the value, and leaves what followed.
pub proof fn lemma_i64_roundtrip(v: i64, rest: Seq<u8>)
    ensures
        spec_read_i64(spec_write_i64(v) + rest) == (Ok::<i64, DecodeError>(v), rest),
{
    lemma_u64_roundtrip(v as u64, rest);
    assert((v as u64) as i64 == v) by (bit_vector);
}

/// Reading a `u8` back from its encoding gives the value, and leaves what followed.
pub proof fn lemma_u8_roundtrip(v: u8, rest: Seq<u8>)
    ensures
        spec_read_u8(seq![v] + rest) == (Ok::<u8, DecodeError>(v), rest),
{
    assert((seq![v] + rest).skip(1) =~= rest);
}

/// Reading a key back from its 32 bytes gives the key, and leaves what followed.
pub proof fn lemma_pubkey_roundtrip(key: Seq<u8>, rest: Seq<u8>)
    requires
        key.len() == 32,
    ensures
        spec_read_pubkey(key + rest) == (Ok::<Seq<u8>, DecodeError>(key), rest),
{
    assert((key + rest).take(32) =~= key);
    assert((key + rest).skip(32) =~= rest);
}

/// Reading an optional key back from its encoding gives it, and leaves what followed.
pub proof fn lemma_option_pubkey_roundtrip(key: Option<Seq<u8>>, rest: Seq<u8>)
    requires
        key matches Some(k) ==> k.len() == 32,
    ensures
        spec_read_option_pubkey(spec_write_option_pubkey(key) + rest)
            == (Ok::<Option<Seq<u8>>, DecodeError>(key), rest),
{
    match key {
        None => {
            lemma_u8_roundtrip(0, rest);
        },
        Some(k) => {
            assert(seq![1u8] + k + rest =~= seq![1u8] + (k + rest));
            lemma_u8_roundtrip(1, k + rest);
            lemma_pubkey_roundtrip(k, rest);
        },
    }
}

/// Reading a string back from its encoding gives the string, and leaves what followed.
pub proof fn lemma_string_roundtrip(chars: Seq<char>, rest: Seq<u8>)
    requires
        string_fits(chars),
    ensures
        spec_read_string(spec_write_string(chars) + rest)
            == (Ok::<Seq<char>, DecodeError>(chars), rest),
{
    broadcast use encode_utf8_valid_utf8, encode_utf8_decode_utf8;

    lemma_auto_spec_u32_to_from_le_bytes();
    let body = encode_utf8(chars);
    let n = body.len() as u32;
    let p = spec_u32_to_le_bytes(n);
    let s = spec_write_string(chars) + rest;
    assert(s =~= p + (body + rest));
    assert(s.take(4) =~= p);
    assert(s.skip(4) =~= body + rest);
    assert((body + rest).take(n as int) =~= body);
    assert((body + rest).skip(n as int) =~= rest);
}

} // verus!
