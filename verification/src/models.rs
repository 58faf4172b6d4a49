//! Client-side representations of the program's on-chain accounts: each account's data is an
//! 8-byte discriminator followed by the Borsh encoding of its fields.
use vstd::prelude::*;
use vstd::bytes::*;
use vstd::utf8::encode_utf8;
use crate::codec::{
    Decoded, DecodeError, EncodeError, is_suffix_of, lemma_suffix_refl, lemma_suffix_trans,
    option_key_view, read_i64, read_option_pubkey, read_pubkey, read_string, read_u64, read_u8,
    spec_read_i64, spec_read_option_pubkey, spec_read_pubkey, spec_read_string, spec_read_u64,
    spec_read_u8, spec_write_i64, spec_write_option_pubkey, spec_write_string, string_fits,
    write_i64, write_option_pubkey, write_pubkey, write_string, write_u64, write_u8,
    lemma_i64_roundtrip, lemma_option_pubkey_roundtrip, lemma_pubkey_roundtrip,
    lemma_string_roundtrip, lemma_u64_roundtrip, lemma_u8_roundtrip,
};
use crate::pubkey::Pubkey;

verus! {

/// Why account data does not decode as a given account type.
#[derive(Clone, Copy, Debug, PartialEq, Eq, Structural)]
pub enum AccountError {
    /// The data is shorter than the 8-byte discriminator.
    DiscriminatorNotFound,
    /// The first 8 bytes are not the type's discriminator.
    DiscriminatorMismatch,
    /// The bytes after the discriminator do not decode as the type's fields.
    DidNotDeserialize(DecodeError),
}

/// What reading an account gives: the value or the error, and the bytes left in the cursor.
pub type AccountDecoded<T> = (Result<T, AccountError>, Seq<u8>);

/// Fields read after the discriminator, a field error reported as `DidNotDeserialize`.
pub open spec fn spec_account_body<T>(body: Decoded<T>) -> AccountDecoded<T> {
    match body {
        (Ok(v), rest) => (Ok(v), rest),
        (Err(e), rest) => (Err(AccountError::DidNotDeserialize(e)), rest),
    }
}

/// Account data read as a type: data shorter than 8 bytes, or other leading bytes than the
/// discriminator, are refused with the cursor untouched; otherwise the cursor moves past the
/// discriminator and the fields are read after it.
pub open spec fn spec_account<T>(s: Seq<u8>, disc: Seq<u8>, body: spec_fn(Seq<u8>) -> Decoded<T>) -> AccountDecoded<T> {
    if s.len() < 8 {
        (Err(AccountError::DiscriminatorNotFound), s)
    } else if s.take(8) != disc {
        (Err(AccountError::DiscriminatorMismatch), s)
    } else {
        spec_account_body(body(s.skip(8)))
    }
}

/// Checks the 8-byte discriminator at the front of the cursor and moves past it; on failure the
/// cursor is left where it was.
fn check_discriminator(buf: &mut &[u8], disc: &[u8; 8]) -> (res: Result<(), AccountError>)
    ensures
        match res {
            Ok(_) => old(buf)@.len() >= 8 && old(buf)@.take(8) == disc@ && final(buf)@ == old(buf)@.skip(8),
            Err(e) => final(buf)@ == old(buf)@ && if old(buf)@.len() < 8 {
                e == AccountError::DiscriminatorNotFound
            } else {
                old(buf)@.take(8) != disc@ && e == AccountError::DiscriminatorMismatch
            },
        },
{
    if buf.len() < 8 {
        return Err(AccountError::DiscriminatorNotFound);
    }
    let mut i: usize = 0;
    while i < 8
        invariant
            i <= 8,
            buf@.len() >= 8,
            disc@.len() == 8,
            forall|j: int| 0 <= j < i ==> buf@[j] == disc@[j],
        decreases 8 - i,
    {
        if buf[i] != disc[i] {
            assert(buf@.take(8)[i as int] != disc@[i as int]);
            return Err(AccountError::DiscriminatorMismatch);
        }
        i = i + 1;
    }
    assert(buf@.take(8) =~= disc@);
    let len = buf.len();
    *buf = vstd::slice::slice_subrange(*buf, 8, len);
    assert(buf@ =~= old(buf)@.skip(8));
    Ok(())
}

// ===================== Post =====================

/// A post, or a reply when `parent_post` names the post it answers.
#[derive(Clone, Debug)]
pub struct Post {
    pub author: Pubkey,
    pub author_post_index: u64,
    pub timestamp: i64,
    pub content: String,
    pub parent_post: Option<Pubkey>,
    pub likes: u64,
    pub reposts: u64,
    pub replies_count: u64,
    pub bump: u8,
}

/// The fields of a [`Post`] as mathematical values.
pub ghost struct PostView {
    pub author: Seq<u8>,
    pub author_post_index: u64,
    pub timestamp: i64,
    pub content: Seq<char>,
    pub parent_post: Option<Seq<u8>>,
    pub likes: u64,
    pub reposts: u64,
    pub replies_count: u64,
    pub bump: u8,
}

impl View for Post {
    type V = PostView;

    open spec fn view(&self) -> PostView {
        PostView {
            author: self.author@,
            author_post_index: self.author_post_index,
            timestamp: self.timestamp,
            content: self.content@,
            parent_post: option_key_view(self.parent_post),
            likes: self.likes,
            reposts: self.reposts,
            replies_count: self.replies_count,
            bump: self.bump,
        }
    }
}

impl PostView {
    /// Keys are 32 bytes long.
    pub open spec fn wf(self) -> bool {
        &&& self.author.len() == 32
        &&& (self.parent_post matches Some(k) ==> k.len() == 32)
    }

    /// Every string's UTF-8 length fits its `u32` length prefix.
    pub open spec fn fits(self) -> bool {
        &&& string_fits(self.content)
    }
}

/// A decoded [`Post`] taken by its view.
pub open spec fn post_result_view(res: Result<Post, DecodeError>) -> Result<PostView, DecodeError> {
    match res {
        Ok(v) => Ok(v@),
        Err(e) => Err(e),
    }
}

/// An account read as a [`Post`], taken by its view.
pub open spec fn post_account_result_view(res: Result<Post, AccountError>) -> Result<PostView, AccountError> {
    match res {
        Ok(v) => Ok(v@),
        Err(e) => Err(e),
    }
}

/// The fields decoded in declaration order, and the bytes left after them (or after the
/// failing field).
#[verifier::opaque]
pub open spec fn spec_read_post(s: Seq<u8>) -> Decoded<PostView> {
    match spec_read_pubkey(s) {
        (Err(e), s) => (Err(e), s),
        (Ok(author), s) => match spec_read_u64(s) {
            (Err(e), s) => (Err(e), s),
            (Ok(author_post_index), s) => match spec_read_i64(s) {
                (Err(e), s) => (Err(e), s),
                (Ok(timestamp), s) => match spec_read_string(s) {
                    (Err(e), s) => (Err(e), s),
                    (Ok(content), s) => match spec_read_option_pubkey(s) {
                        (Err(e), s) => (Err(e), s),
                        (Ok(parent_post), s) => match spec_read_u64(s) {
                            (Err(e), s) => (Err(e), s),
                            (Ok(likes), s) => match spec_read_u64(s) {
                                (Err(e), s) => (Err(e), s),
                                (Ok(reposts), s) => match spec_read_u64(s) {
                                    (Err(e), s) => (Err(e), s),
                                    (Ok(replies_count), s) => match spec_read_u8(s) {
                                        (Err(e), s) => (Err(e), s),
                                        (Ok(bump), s) => (
                                            Ok(PostView { author, author_post_index, timestamp, content, parent_post, likes, reposts, replies_count, bump }),
                                            s,
                                        ),
                                    },
                                },
                            },
                        },
                    },
                },
            },
        },
    }
}

/// The Borsh encoding of the fields, in declaration order.
pub open spec fn spec_write_post(v: PostView) -> Seq<u8> {
    v.author
        + spec_u64_to_le_bytes(v.author_post_index)
        + spec_write_i64(v.timestamp)
        + spec_write_string(v.content)
        + spec_write_option_pubkey(v.parent_post)
        + spec_u64_to_le_bytes(v.likes)
        + spec_u64_to_le_bytes(v.reposts)
        + spec_u64_to_le_bytes(v.replies_count)
        + seq![v.bump]
}

/// The 8 bytes that open a [`Post`] account's data.
pub open spec fn post_discriminator() -> Seq<u8> {
    seq![8u8, 147, 90, 186, 185, 56, 192, 150]
}

/// Account data read as a [`Post`]: the discriminator, then the fields.
pub open spec fn spec_try_deserialize_post(s: Seq<u8>) -> AccountDecoded<PostView> {
    spec_account(s, post_discriminator(), |b: Seq<u8>| spec_read_post(b))
}

/// Account data read as a [`Post`] without looking at a discriminator.
pub open spec fn spec_try_deserialize_post_unchecked(s: Seq<u8>) -> AccountDecoded<PostView> {
    spec_account_body(spec_read_post(s))
}

impl Post {
    /// The 8 bytes that open this account type's data.
    pub const DISCRIMINATOR: [u8; 8] = [8, 147, 90, 186, 185, 56, 192, 150];

    /// Decodes the fields from the front of the cursor, in declaration order; the cursor ends
    /// after the last field, or, on failure, where the failing field's read left it.
    pub fn deserialize(buf: &mut &[u8]) -> (res: Result<Post, DecodeError>)
        ensures
            spec_read_post(old(buf)@) == (post_result_view(res), final(buf)@),
            is_suffix_of(final(buf)@, old(buf)@),
    {
        reveal(spec_read_post);
        let ghost start = buf@;
        proof {
            lemma_suffix_refl(start);
        }
        let ghost before = buf@;
        let author = match read_pubkey(buf) {
            Ok(v) => v,
            Err(e) => {
                proof {
                    lemma_suffix_trans(buf@, before, start);
                }
                return Err(e);
            },
        };
        proof {
            lemma_suffix_trans(buf@, before, start);
        }
        let ghost before = buf@;
        let author_post_index = match read_u64(buf) {
            Ok(v) => v,
            Err(e) => {
                proof {
                    lemma_suffix_trans(buf@, before, start);
                }
                return Err(e);
            },
        };
        proof {
            lemma_suffix_trans(buf@, before, start);
        }
        let ghost before = buf@;
        let timestamp = match read_i64(buf) {
            Ok(v) => v,
            Err(e) => {
                proof {
                    lemma_suffix_trans(buf@, before, start);
                }
                return Err(e);
            },
        };
        proof {
            lemma_suffix_trans(buf@, before, start);
        }
        let ghost before = buf@;
        let content = match read_string(buf) {
            Ok(v) => v,
            Err(e) => {
                proof {
                    lemma_suffix_trans(buf@, before, start);
                }
                return Err(e);
            },
        };
        proof {
            lemma_suffix_trans(buf@, before, start);
        }
        let ghost before = buf@;
        let parent_post = match read_option_pubkey(buf) {
            Ok(v) => v,
            Err(e) => {
                proof {
                    lemma_suffix_trans(buf@, before, start);
                }
                return Err(e);
            },
        };
        proof {
            lemma_suffix_trans(buf@, before, start);
        }
        let ghost before = buf@;
        let likes = match read_u64(buf) {
            Ok(v) => v,
            Err(e) => {
                proof {
                    lemma_suffix_trans(buf@, before, start);
                }
                return Err(e);
            },
        };
        proof {
            lemma_suffix_trans(buf@, before, start);
        }
        let ghost before = buf@;
        let reposts = match read_u64(buf) {
            Ok(v) => v,
            Err(e) => {
                proof {
                    lemma_suffix_trans(buf@, before, start);
                }
                return Err(e);
            },
        };
        proof {
            lemma_suffix_trans(buf@, before, start);
        }
        let ghost before = buf@;
        let replies_count = match read_u64(buf) {
            Ok(v) => v,
            Err(e) => {
                proof {
                    lemma_suffix_trans(buf@, before, start);
                }
                return Err(e);
            },
        };
        proof {
            lemma_suffix_trans(buf@, before, start);
        }
        let ghost before = buf@;
        let bump = match read_u8(buf) {
            Ok(v) => v,
            Err(e) => {
                proof {
                    lemma_suffix_trans(buf@, before, start);
                }
                return Err(e);
            },
        };
        proof {
            lemma_suffix_trans(buf@, before, start);
        }
        Ok(Post { author, author_post_index, timestamp, content, parent_post, likes, reposts, replies_count, bump })
    }

    /// Reads a whole account: checks the discriminator, then decodes the fields after it.
    /// Data shorter than 8 bytes is `DiscriminatorNotFound` and other leading bytes are
    /// `DiscriminatorMismatch`, both with the cursor untouched. Otherwise the cursor moves past
    /// the discriminator; fields that do not decode are `DidNotDeserialize`, with the cursor
    /// where the failing read left it. Bytes after the last field are left in the cursor.
    pub fn try_deserialize(buf: &mut &[u8]) -> (res: Result<Post, AccountError>)
        ensures
            spec_try_deserialize_post(old(buf)@) == (post_account_result_view(res), final(buf)@),
            res matches Err(AccountError::DidNotDeserialize(_)) ==> old(buf)@.len() >= 8
                && is_suffix_of(final(buf)@, old(buf)@.skip(8)),
            res matches Err(AccountError::DiscriminatorNotFound) ==> final(buf)@ == old(buf)@,
            res matches Err(AccountError::DiscriminatorMismatch) ==> final(buf)@ == old(buf)@,
            res matches Err(AccountError::DiscriminatorNotFound) <==> old(buf)@.len() < 8,
            res matches Err(AccountError::DiscriminatorMismatch) <==> (old(buf)@.len() >= 8 && old(buf)@.take(8)
                != seq![8u8, 147, 90, 186, 185, 56, 192, 150]),
    {
        let disc: [u8; 8] = Self::DISCRIMINATOR;
        assert(disc@ =~= post_discriminator());
        match check_discriminator(buf, &disc) {
            Ok(_) => {},
            Err(e) => return Err(e),
        }
        match Self::deserialize(buf) {
            Ok(v) => Ok(v),
            Err(e) => Err(AccountError::DidNotDeserialize(e)),
        }
    }

    /// Reads the fields without checking a discriminator; fields that do not decode are
    /// `DidNotDeserialize`, with the cursor where the failing read left it.
    pub fn try_deserialize_unchecked(buf: &mut &[u8]) -> (res: Result<Post, AccountError>)
        ensures
            spec_try_deserialize_post_unchecked(old(buf)@) == (post_account_result_view(res), final(buf)@),
            is_suffix_of(final(buf)@, old(buf)@),
    {
        match Self::deserialize(buf) {
            Ok(v) => Ok(v),
            Err(e) => Err(AccountError::DidNotDeserialize(e)),
        }
    }

    /// The Borsh encoding of the fields (without the discriminator). It fails only when a
    /// string's UTF-8 length does not fit its `u32` length prefix.
    pub fn try_to_vec(&self) -> (res: Result<Vec<u8>, EncodeError>)
        ensures
            res is Ok <==> self@.fits(),
            res matches Ok(bytes) ==> bytes@ == spec_write_post(self@),
    {
        let mut out: Vec<u8> = Vec::new();
        write_pubkey(&mut out, &self.author);
        write_u64(&mut out, self.author_post_index);
        write_i64(&mut out, self.timestamp);
        match write_string(&mut out, self.content.as_str()) {
            Ok(_) => {},
            Err(e) => return Err(e),
        }
        write_option_pubkey(&mut out, &self.parent_post);
        write_u64(&mut out, self.likes);
        write_u64(&mut out, self.reposts);
        write_u64(&mut out, self.replies_count);
        write_u8(&mut out, self.bump);
        assert(out@ =~= spec_write_post(self@));
        Ok(out)
    }
}

/// Decoding the encoding of a [`Post`] gives it back, and leaves the bytes that followed.
#[verifier::rlimit(40)]
pub proof fn lemma_post_roundtrip(v: PostView, rest: Seq<u8>)
    requires
        v.wf(),
        v.fits(),
    ensures
        spec_read_post(spec_write_post(v) + rest) == (Ok::<PostView, DecodeError>(v), rest),
{
    reveal(spec_read_post);
    let t9 = rest;
    let t8 = seq![v.bump] + t9;
    let t7 = spec_u64_to_le_bytes(v.replies_count) + t8;
    let t6 = spec_u64_to_le_bytes(v.reposts) + t7;
    let t5 = spec_u64_to_le_bytes(v.likes) + t6;
    let t4 = spec_write_option_pubkey(v.parent_post) + t5;
    let t3 = spec_write_string(v.content) + t4;
    let t2 = spec_write_i64(v.timestamp) + t3;
    let t1 = spec_u64_to_le_bytes(v.author_post_index) + t2;
    let t0 = v.author + t1;
    let a0 = v.author;
    let a1 = spec_u64_to_le_bytes(v.author_post_index);
    let a2 = spec_write_i64(v.timestamp);
    let a3 = spec_write_string(v.content);
    let a4 = spec_write_option_pubkey(v.parent_post);
    let a5 = spec_u64_to_le_bytes(v.likes);
    let a6 = spec_u64_to_le_bytes(v.reposts);
    let a7 = spec_u64_to_le_bytes(v.replies_count);
    let a8 = seq![v.bump];
    let p1 = a0;
    let p2 = p1 + a1;
    let p3 = p2 + a2;
    let p4 = p3 + a3;
    let p5 = p4 + a4;
    let p6 = p5 + a5;
    let p7 = p6 + a6;
    let p8 = p7 + a7;
    let p9 = p8 + a8;
    vstd::seq_lib::lemma_concat_associative(p1, a1, t2);
    vstd::seq_lib::lemma_concat_associative(p2, a2, t3);
    vstd::seq_lib::lemma_concat_associative(p3, a3, t4);
    vstd::seq_lib::lemma_concat_associative(p4, a4, t5);
    vstd::seq_lib::lemma_concat_associative(p5, a5, t6);
    vstd::seq_lib::lemma_concat_associative(p6, a6, t7);
    vstd::seq_lib::lemma_concat_associative(p7, a7, t8);
    vstd::seq_lib::lemma_concat_associative(p8, a8, t9);
    assert(spec_write_post(v) + rest == t0);
    lemma_pubkey_roundtrip(v.author, t1);
    lemma_u64_roundtrip(v.author_post_index, t2);
    lemma_i64_roundtrip(v.timestamp, t3);
    lemma_string_roundtrip(v.content, t4);
    lemma_option_pubkey_roundtrip(v.parent_post, t5);
    lemma_u64_roundtrip(v.likes, t6);
    lemma_u64_roundtrip(v.reposts, t7);
    lemma_u64_roundtrip(v.replies_count, t8);
    lemma_u8_roundtrip(v.bump, t9);
}

/// Reading account data made of the [`Post`] discriminator and the encoding of a value gives
/// the value back, and leaves the bytes that followed.
pub proof fn lemma_post_account_roundtrip(v: PostView, rest: Seq<u8>)
    requires
        v.wf(),
        v.fits(),
    ensures
        spec_try_deserialize_post(post_discriminator() + spec_write_post(v) + rest)
            == (Ok::<PostView, AccountError>(v), rest),
{
    let s = post_discriminator() + spec_write_post(v) + rest;
    assert(s.take(8) =~= post_discriminator());
    assert(s.skip(8) =~= spec_write_post(v) + rest);
    lemma_post_roundtrip(v, rest);
}

/// Once the discriminator matches, reading the account is reading its fields without a check:
/// the same value or error, and the same bytes left.
pub proof fn lemma_post_checked_is_unchecked_after_discriminator(s: Seq<u8>)
    requires
        s.len() >= 8,
        s.take(8) == post_discriminator(),
    ensures
        spec_try_deserialize_post(s) == spec_try_deserialize_post_unchecked(s.skip(8)),
{
}

/// The on-chain layout of a [`Post`] account, as Anchor writes it: the discriminator
/// `[8, 147, 90, 186, 185, 56, 192, 150]`, then the fields in declaration order, keys as their 32 bytes, integers little-endian
/// (an `i64` as its two's-complement `u64`), an `Option` as a 0 or 1 tag followed by the value,
/// a string as its UTF-8 byte length (`u32`, little-endian) followed by its UTF-8 bytes. Reading
/// such data gives exactly those field values and leaves the bytes after them.
pub proof fn lemma_post_layout(author: Seq<u8>, author_post_index: u64, timestamp: i64, content: Seq<char>, parent_post: Option<Seq<u8>>, likes: u64, reposts: u64, replies_count: u64, bump: u8, rest: Seq<u8>)
    requires
        author.len() == 32,
        encode_utf8(content).len() <= u32::MAX,
        (parent_post matches Some(k) ==> k.len() == 32),
    ensures
        spec_try_deserialize_post(
            seq![8u8, 147, 90, 186, 185, 56, 192, 150]
            + author
            + spec_u64_to_le_bytes(author_post_index)
            + spec_u64_to_le_bytes(timestamp as u64)
            + spec_u32_to_le_bytes(encode_utf8(content).len() as u32) + encode_utf8(content)
            + (match parent_post { None => seq![0u8], Some(k) => seq![1u8] + k })
            + spec_u64_to_le_bytes(likes)
            + spec_u64_to_le_bytes(reposts)
            + spec_u64_to_le_bytes(replies_count)
            + seq![bump]
            + rest,
        ) == (Ok::<PostView, AccountError>(PostView { author, author_post_index, timestamp, content, parent_post, likes, reposts, replies_count, bump }), rest),
{
    let v = PostView { author, author_post_index, timestamp, content, parent_post, likes, reposts, replies_count, bump };
    assert(seq![8u8, 147, 90, 186, 185, 56, 192, 150]
            + author
            + spec_u64_to_le_bytes(author_post_index)
            + spec_u64_to_le_bytes(timestamp as u64)
            + spec_u32_to_le_bytes(encode_utf8(content).len() as u32) + encode_utf8(content)
            + (match parent_post { None => seq![0u8], Some(k) => seq![1u8] + k })
            + spec_u64_to_le_bytes(likes)
            + spec_u64_to_le_bytes(reposts)
            + spec_u64_to_le_bytes(replies_count)
            + seq![bump]
            + rest =~= post_discriminator() + spec_write_post(v) + rest);
    lemma_post_account_roundtrip(v, rest);
}

/// The Borsh layout of a [`Post`]'s fields, in declaration order and with no discriminator:
/// keys as their 32 bytes, integers little-endian (an `i64` as its two's-complement `u64`), an
/// `Option` as a 0 or 1 tag followed by the value, a string as its UTF-8 byte length (`u32`,
/// little-endian) followed by its UTF-8 bytes. Decoding such bytes gives exactly those field
/// values and leaves the bytes after them.
pub proof fn lemma_post_fields_layout(author: Seq<u8>, author_post_index: u64, timestamp: i64, content: Seq<char>, parent_post: Option<Seq<u8>>, likes: u64, reposts: u64, replies_count: u64, bump: u8, rest: Seq<u8>)
    requires
        author.len() == 32,
        encode_utf8(content).len() <= u32::MAX,
        (parent_post matches Some(k) ==> k.len() == 32),
    ensures
        spec_read_post(
            author
            + spec_u64_to_le_bytes(author_post_index)
            + spec_u64_to_le_bytes(timestamp as u64)
            + spec_u32_to_le_bytes(encode_utf8(content).len() as u32) + encode_utf8(content)
            + (match parent_post { None => seq![0u8], Some(k) => seq![1u8] + k })
            + spec_u64_to_le_bytes(likes)
            + spec_u64_to_le_bytes(reposts)
            + spec_u64_to_le_bytes(replies_count)
            + seq![bump]
            + rest,
        ) == (Ok::<PostView, DecodeError>(PostView { author, author_post_index, timestamp, content, parent_post, likes, reposts, replies_count, bump }), rest),
{
    let v = PostView { author, author_post_index, timestamp, content, parent_post, likes, reposts, replies_count, bump };
    assert(author
            + spec_u64_to_le_bytes(author_post_index)
            + spec_u64_to_le_bytes(timestamp as u64)
            + spec_u32_to_le_bytes(encode_utf8(content).len() as u32) + encode_utf8(content)
            + (match parent_post { None => seq![0u8], Some(k) => seq![1u8] + k })
            + spec_u64_to_le_bytes(likes)
            + spec_u64_to_le_bytes(reposts)
            + spec_u64_to_le_bytes(replies_count)
            + seq![bump]
            + rest =~= spec_write_post(v) + rest);
    lemma_post_roundtrip(v, rest);
}

// ===================== AgentProfile =====================

/// An agent's profile, with its follow and post counts.
#[derive(Clone, Debug)]
pub struct AgentProfile {
    pub authority: Pubkey,
    pub display_name: String,
    pub avatar_url: String,
    pub bio: String,
    pub follower_count: u64,
    pub following_count: u64,
    pub post_count: u64,
    pub bump: u8,
}

/// The fields of a [`AgentProfile`] as mathematical values.
pub ghost struct AgentProfileView {
    pub authority: Seq<u8>,
    pub display_name: Seq<char>,
    pub avatar_url: Seq<char>,
    pub bio: Seq<char>,
    pub follower_count: u64,
    pub following_count: u64,
    pub post_count: u64,
    pub bump: u8,
}

impl View for AgentProfile {
    type V = AgentProfileView;

    open spec fn view(&self) -> AgentProfileView {
        AgentProfileView {
            authority: self.authority@,
            display_name: self.display_name@,
            avatar_url: self.avatar_url@,
            bio: self.bio@,
            follower_count: self.follower_count,
            following_count: self.following_count,
            post_count: self.post_count,
            bump: self.bump,
        }
    }
}

impl AgentProfileView {
    /// Keys are 32 bytes long.
    pub open spec fn wf(self) -> bool {
        &&& self.authority.len() == 32
    }

    /// Every string's UTF-8 length fits its `u32` length prefix.
    pub open spec fn fits(self) -> bool {
        &&& string_fits(self.display_name)
        &&& string_fits(self.avatar_url)
        &&& string_fits(self.bio)
    }
}

/// A decoded [`AgentProfile`] taken by its view.
pub open spec fn agent_profile_result_view(res: Result<AgentProfile, DecodeError>) -> Result<AgentProfileView, DecodeError> {
    match res {
        Ok(v) => Ok(v@),
        Err(e) => Err(e),
    }
}

/// An account read as a [`AgentProfile`], taken by its view.
pub open spec fn agent_profile_account_result_view(res: Result<AgentProfile, AccountError>) -> Result<AgentProfileView, AccountError> {
    match res {
        Ok(v) => Ok(v@),
        Err(e) => Err(e),
    }
}

/// The fields decoded in declaration order, and the bytes left after them (or after the
/// failing field).
#[verifier::opaque]
pub open spec fn spec_read_agent_profile(s: Seq<u8>) -> Decoded<AgentProfileView> {
    match spec_read_pubkey(s) {
        (Err(e), s) => (Err(e), s),
        (Ok(authority), s) => match spec_read_string(s) {
            (Err(e), s) => (Err(e), s),
            (Ok(display_name), s) => match spec_read_string(s) {
                (Err(e), s) => (Err(e), s),
                (Ok(avatar_url), s) => match spec_read_string(s) {
                    (Err(e), s) => (Err(e), s),
                    (Ok(bio), s) => match spec_read_u64(s) {
                        (Err(e), s) => (Err(e), s),
                        (Ok(follower_count), s) => match spec_read_u64(s) {
                            (Err(e), s) => (Err(e), s),
                            (Ok(following_count), s) => match spec_read_u64(s) {
                                (Err(e), s) => (Err(e), s),
                                (Ok(post_count), s) => match spec_read_u8(s) {
                                    (Err(e), s) => (Err(e), s),
                                    (Ok(bump), s) => (
                                        Ok(AgentProfileView { authority, display_name, avatar_url, bio, follower_count, following_count, post_count, bump }),
                                        s,
                                    ),
                                },
                            },
                        },
                    },
                },
            },
        },
    }
}

/// The Borsh encoding of the fields, in declaration order.
pub open spec fn spec_write_agent_profile(v: AgentProfileView) -> Seq<u8> {
    v.authority
        + spec_write_string(v.display_name)
        + spec_write_string(v.avatar_url)
        + spec_write_string(v.bio)
        + spec_u64_to_le_bytes(v.follower_count)
        + spec_u64_to_le_bytes(v.following_count)
        + spec_u64_to_le_bytes(v.post_count)
        + seq![v.bump]
}

/// The 8 bytes that open a [`AgentProfile`] account's data.
pub open spec fn agent_profile_discriminator() -> Seq<u8> {
    seq![60u8, 227, 42, 24, 0, 87, 86, 205]
}

/// Account data read as a [`AgentProfile`]: the discriminator, then the fields.
pub open spec fn spec_try_deserialize_agent_profile(s: Seq<u8>) -> AccountDecoded<AgentProfileView> {
    spec_account(s, agent_profile_discriminator(), |b: Seq<u8>| spec_read_agent_profile(b))
}

/// Account data read as a [`AgentProfile`] without looking at a discriminator.
pub open spec fn spec_try_deserialize_agent_profile_unchecked(s: Seq<u8>) -> AccountDecoded<AgentProfileView> {
    spec_account_body(spec_read_agent_profile(s))
}

impl AgentProfile {
    /// The 8 bytes that open this account type's data.
    pub const DISCRIMINATOR: [u8; 8] = [60, 227, 42, 24, 0, 87, 86, 205];

    /// Decodes the fields from the front of the cursor, in declaration order; the cursor ends
    /// after the last field, or, on failure, where the failing field's read left it.
    pub fn deserialize(buf: &mut &[u8]) -> (res: Result<AgentProfile, DecodeError>)
        ensures
            spec_read_agent_profile(old(buf)@) == (agent_profile_result_view(res), final(buf)@),
            is_suffix_of(final(buf)@, old(buf)@),
    {
        reveal(spec_read_agent_profile);
        let ghost start = buf@;
        proof {
            lemma_suffix_refl(start);
        }
        let ghost before = buf@;
        let authority = match read_pubkey(buf) {
            Ok(v) => v,
            Err(e) => {
                proof {
                    lemma_suffix_trans(buf@, before, start);
                }
                return Err(e);
            },
        };
        proof {
            lemma_suffix_trans(buf@, before, start);
        }
        let ghost before = buf@;
        let display_name = match read_string(buf) {
            Ok(v) => v,
            Err(e) => {
                proof {
                    lemma_suffix_trans(buf@, before, start);
                }
                return Err(e);
            },
        };
        proof {
            lemma_suffix_trans(buf@, before, start);
        }
        let ghost before = buf@;
        let avatar_url = match read_string(buf) {
            Ok(v) => v,
            Err(e) => {
                proof {
                    lemma_suffix_trans(buf@, before, start);
                }
                return Err(e);
            },
        };
        proof {
            lemma_suffix_trans(buf@, before, start);
        }
        let ghost before = buf@;
        let bio = match read_string(buf) {
            Ok(v) => v,
            Err(e) => {
                proof {
                    lemma_suffix_trans(buf@, before, start);
                }
                return Err(e);
            },
        };
        proof {
            lemma_suffix_trans(buf@, before, start);
        }
        let ghost before = buf@;
        let follower_count = match read_u64(buf) {
            Ok(v) => v,
            Err(e) => {
                proof {
                    lemma_suffix_trans(buf@, before, start);
                }
                return Err(e);
            },
        };
        proof {
            lemma_suffix_trans(buf@, before, start);
        }
        let ghost before = buf@;
        let following_count = match read_u64(buf) {
            Ok(v) => v,
            Err(e) => {
                proof {
                    lemma_suffix_trans(buf@, before, start);
                }
                return Err(e);
            },
        };
        proof {
            lemma_suffix_trans(buf@, before, start);
        }
        let ghost before = buf@;
        let post_count = match read_u64(buf) {
            Ok(v) => v,
            Err(e) => {
                proof {
                    lemma_suffix_trans(buf@, before, start);
                }
                return Err(e);
            },
        };
        proof {
            lemma_suffix_trans(buf@, before, start);
        }
        let ghost before = buf@;
        let bump = match read_u8(buf) {
            Ok(v) => v,
            Err(e) => {
                proof {
                    lemma_suffix_trans(buf@, before, start);
                }
                return Err(e);
            },
        };
        proof {
            lemma_suffix_trans(buf@, before, start);
        }
        Ok(AgentProfile { authority, display_name, avatar_url, bio, follower_count, following_count, post_count, bump })
    }

    /// Reads a whole account: checks the discriminator, then decodes the fields after it.
    /// Data shorter than 8 bytes is `DiscriminatorNotFound` and other leading bytes are
    /// `DiscriminatorMismatch`, both with the cursor untouched. Otherwise the cursor moves past
    /// the discriminator; fields that do not decode are `DidNotDeserialize`, with the cursor
    /// where the failing read left it. Bytes after the last field are left in the cursor.
    pub fn try_deserialize(buf: &mut &[u8]) -> (res: Result<AgentProfile, AccountError>)
        ensures
            spec_try_deserialize_agent_profile(old(buf)@) == (agent_profile_account_result_view(res), final(buf)@),
            res matches Err(AccountError::DidNotDeserialize(_)) ==> old(buf)@.len() >= 8
                && is_suffix_of(final(buf)@, old(buf)@.skip(8)),
            res matches Err(AccountError::DiscriminatorNotFound) ==> final(buf)@ == old(buf)@,
            res matches Err(AccountError::DiscriminatorMismatch) ==> final(buf)@ == old(buf)@,
            res matches Err(AccountError::DiscriminatorNotFound) <==> old(buf)@.len() < 8,
            res matches Err(AccountError::DiscriminatorMismatch) <==> (old(buf)@.len() >= 8 && old(buf)@.take(8)
                != seq![60u8, 227, 42, 24, 0, 87, 86, 205]),
    {
        let disc: [u8; 8] = Self::DISCRIMINATOR;
        assert(disc@ =~= agent_profile_discriminator());
        match check_discriminator(buf, &disc) {
            Ok(_) => {},
            Err(e) => return Err(e),
        }
        match Self::deserialize(buf) {
            Ok(v) => Ok(v),
            Err(e) => Err(AccountError::DidNotDeserialize(e)),
        }
    }

    /// Reads the fields without checking a discriminator; fields that do not decode are
    /// `DidNotDeserialize`, with the cursor where the failing read left it.
    pub fn try_deserialize_unchecked(buf: &mut &[u8]) -> (res: Result<AgentProfile, AccountError>)
        ensures
            spec_try_deserialize_agent_profile_unchecked(old(buf)@) == (agent_profile_account_result_view(res), final(buf)@),
            is_suffix_of(final(buf)@, old(buf)@),
    {
        match Self::deserialize(buf) {
            Ok(v) => Ok(v),
            Err(e) => Err(AccountError::DidNotDeserialize(e)),
        }
    }

    /// The Borsh encoding of the fields (without the discriminator). It fails only when a
    /// string's UTF-8 length does not fit its `u32` length prefix.
    pub fn try_to_vec(&self) -> (res: Result<Vec<u8>, EncodeError>)
        ensures
            res is Ok <==> self@.fits(),
            res matches Ok(bytes) ==> bytes@ == spec_write_agent_profile(self@),
    {
        let mut out: Vec<u8> = Vec::new();
        write_pubkey(&mut out, &self.authority);
        match write_string(&mut out, self.display_name.as_str()) {
            Ok(_) => {},
            Err(e) => return Err(e),
        }
        match write_string(&mut out, self.avatar_url.as_str()) {
            Ok(_) => {},
            Err(e) => return Err(e),
        }
        match write_string(&mut out, self.bio.as_str()) {
            Ok(_) => {},
            Err(e) => return Err(e),
        }
        write_u64(&mut out, self.follower_count);
        write_u64(&mut out, self.following_count);
        write_u64(&mut out, self.post_count);
        write_u8(&mut out, self.bump);
        assert(out@ =~= spec_write_agent_profile(self@));
        Ok(out)
    }
}

/// Decoding the encoding of a [`AgentProfile`] gives it back, and leaves the bytes that followed.
#[verifier::rlimit(40)]
pub proof fn lemma_agent_profile_roundtrip(v: AgentProfileView, rest: Seq<u8>)
    requires
        v.wf(),
        v.fits(),
    ensures
        spec_read_agent_profile(spec_write_agent_profile(v) + rest) == (Ok::<AgentProfileView, DecodeError>(v), rest),
{
    reveal(spec_read_agent_profile);
    let t8 = rest;
    let t7 = seq![v.bump] + t8;
    let t6 = spec_u64_to_le_bytes(v.post_count) + t7;
    let t5 = spec_u64_to_le_bytes(v.following_count) + t6;
    let t4 = spec_u64_to_le_bytes(v.follower_count) + t5;
    let t3 = spec_write_string(v.bio) + t4;
    let t2 = spec_write_string(v.avatar_url) + t3;
    let t1 = spec_write_string(v.display_name) + t2;
    let t0 = v.authority + t1;
    let a0 = v.authority;
    let a1 = spec_write_string(v.display_name);
    let a2 = spec_write_string(v.avatar_url);
    let a3 = spec_write_string(v.bio);
    let a4 = spec_u64_to_le_bytes(v.follower_count);
    let a5 = spec_u64_to_le_bytes(v.following_count);
    let a6 = spec_u64_to_le_bytes(v.post_count);
    let a7 = seq![v.bump];
    let p1 = a0;
    let p2 = p1 + a1;
    let p3 = p2 + a2;
    let p4 = p3 + a3;
    let p5 = p4 + a4;
    let p6 = p5 + a5;
    let p7 = p6 + a6;
    let p8 = p7 + a7;
    vstd::seq_lib::lemma_concat_associative(p1, a1, t2);
    vstd::seq_lib::lemma_concat_associative(p2, a2, t3);
    vstd::seq_lib::lemma_concat_associative(p3, a3, t4);
    vstd::seq_lib::lemma_concat_associative(p4, a4, t5);
    vstd::seq_lib::lemma_concat_associative(p5, a5, t6);
    vstd::seq_lib::lemma_concat_associative(p6, a6, t7);
    vstd::seq_lib::lemma_concat_associative(p7, a7, t8);
    assert(spec_write_agent_profile(v) + rest == t0);
    lemma_pubkey_roundtrip(v.authority, t1);
    lemma_string_roundtrip(v.display_name, t2);
    lemma_string_roundtrip(v.avatar_url, t3);
    lemma_string_roundtrip(v.bio, t4);
    lemma_u64_roundtrip(v.follower_count, t5);
    lemma_u64_roundtrip(v.following_count, t6);
    lemma_u64_roundtrip(v.post_count, t7);
    lemma_u8_roundtrip(v.bump, t8);
}

/// Reading account data made of the [`AgentProfile`] discriminator and the encoding of a value gives
/// the value back, and leaves the bytes that followed.
pub proof fn lemma_agent_profile_account_roundtrip(v: AgentProfileView, rest: Seq<u8>)
    requires
        v.wf(),
        v.fits(),
    ensures
        spec_try_deserialize_agent_profile(agent_profile_discriminator() + spec_write_agent_profile(v) + rest)
            == (Ok::<AgentProfileView, AccountError>(v), rest),
{
    let s = agent_profile_discriminator() + spec_write_agent_profile(v) + rest;
    assert(s.take(8) =~= agent_profile_discriminator());
    assert(s.skip(8) =~= spec_write_agent_profile(v) + rest);
    lemma_agent_profile_roundtrip(v, rest);
}

/// Once the discriminator matches, reading the account is reading its fields without a check:
/// the same value or error, and the same bytes left.
pub proof fn lemma_agent_profile_checked_is_unchecked_after_discriminator(s: Seq<u8>)
    requires
        s.len() >= 8,
        s.take(8) == agent_profile_discriminator(),
    ensures
        spec_try_deserialize_agent_profile(s) == spec_try_deserialize_agent_profile_unchecked(s.skip(8)),
{
}

/// The on-chain layout of a [`AgentProfile`] account, as Anchor writes it: the discriminator
/// `[60, 227, 42, 24, 0, 87, 86, 205]`, then the fields in declaration order, keys as their 32 bytes, integers little-endian
/// (an `i64` as its two's-complement `u64`), an `Option` as a 0 or 1 tag followed by the value,
/// a string as its UTF-8 byte length (`u32`, little-endian) followed by its UTF-8 bytes. Reading
/// such data gives exactly those field values and leaves the bytes after them.
pub proof fn lemma_agent_profile_layout(authority: Seq<u8>, display_name: Seq<char>, avatar_url: Seq<char>, bio: Seq<char>, follower_count: u64, following_count: u64, post_count: u64, bump: u8, rest: Seq<u8>)
    requires
        authority.len() == 32,
        encode_utf8(display_name).len() <= u32::MAX,
        encode_utf8(avatar_url).len() <= u32::MAX,
        encode_utf8(bio).len() <= u32::MAX,
    ensures
        spec_try_deserialize_agent_profile(
            seq![60u8, 227, 42, 24, 0, 87, 86, 205]
            + authority
            + spec_u32_to_le_bytes(encode_utf8(display_name).len() as u32) + encode_utf8(display_name)
            + spec_u32_to_le_bytes(encode_utf8(avatar_url).len() as u32) + encode_utf8(avatar_url)
            + spec_u32_to_le_bytes(encode_utf8(bio).len() as u32) + encode_utf8(bio)
            + spec_u64_to_le_bytes(follower_count)
            + spec_u64_to_le_bytes(following_count)
            + spec_u64_to_le_bytes(post_count)
            + seq![bump]
            + rest,
        ) == (Ok::<AgentProfileView, AccountError>(AgentProfileView { authority, display_name, avatar_url, bio, follower_count, following_count, post_count, bump }), rest),
{
    let v = AgentProfileView { authority, display_name, avatar_url, bio, follower_count, following_count, post_count, bump };
    assert(seq![60u8, 227, 42, 24, 0, 87, 86, 205]
            + authority
            + spec_u32_to_le_bytes(encode_utf8(display_name).len() as u32) + encode_utf8(display_name)
            + spec_u32_to_le_bytes(encode_utf8(avatar_url).len() as u32) + encode_utf8(avatar_url)
            + spec_u32_to_le_bytes(encode_utf8(bio).len() as u32) + encode_utf8(bio)
            + spec_u64_to_le_bytes(follower_count)
            + spec_u64_to_le_bytes(following_count)
            + spec_u64_to_le_bytes(post_count)
            + seq![bump]
            + rest =~= agent_profile_discriminator() + spec_write_agent_profile(v) + rest);
    lemma_agent_profile_account_roundtrip(v, rest);
}

/// The Borsh layout of a [`AgentProfile`]'s fields, in declaration order and with no discriminator:
/// keys as their 32 bytes, integers little-endian (an `i64` as its two's-complement `u64`), an
/// `Option` as a 0 or 1 tag followed by the value, a string as its UTF-8 byte length (`u32`,
/// little-endian) followed by its UTF-8 bytes. Decoding such bytes gives exactly those field
/// values and leaves the bytes after them.
pub proof fn lemma_agent_profile_fields_layout(authority: Seq<u8>, display_name: Seq<char>, avatar_url: Seq<char>, bio: Seq<char>, follower_count: u64, following_count: u64, post_count: u64, bump: u8, rest: Seq<u8>)
    requires
        authority.len() == 32,
        encode_utf8(display_name).len() <= u32::MAX,
        encode_utf8(avatar_url).len() <= u32::MAX,
        encode_utf8(bio).len() <= u32::MAX,
    ensures
        spec_read_agent_profile(
            authority
            + spec_u32_to_le_bytes(encode_utf8(display_name).len() as u32) + encode_utf8(display_name)
            + spec_u32_to_le_bytes(encode_utf8(avatar_url).len() as u32) + encode_utf8(avatar_url)
            + spec_u32_to_le_bytes(encode_utf8(bio).len() as u32) + encode_utf8(bio)
            + spec_u64_to_le_bytes(follower_count)
            + spec_u64_to_le_bytes(following_count)
            + spec_u64_to_le_bytes(post_count)
            + seq![bump]
            + rest,
        ) == (Ok::<AgentProfileView, DecodeError>(AgentProfileView { authority, display_name, avatar_url, bio, follower_count, following_count, post_count, bump }), rest),
{
    let v = AgentProfileView { authority, display_name, avatar_url, bio, follower_count, following_count, post_count, bump };
    assert(authority
            + spec_u32_to_le_bytes(encode_utf8(display_name).len() as u32) + encode_utf8(display_name)
            + spec_u32_to_le_bytes(encode_utf8(avatar_url).len() as u32) + encode_utf8(avatar_url)
            + spec_u32_to_le_bytes(encode_utf8(bio).len() as u32) + encode_utf8(bio)
            + spec_u64_to_le_bytes(follower_count)
            + spec_u64_to_le_bytes(following_count)
            + spec_u64_to_le_bytes(post_count)
            + seq![bump]
            + rest =~= spec_write_agent_profile(v) + rest);
    lemma_agent_profile_roundtrip(v, rest);
}

// ===================== LikeRecord =====================

/// The record that `liker` likes `original_post`.
#[derive(Clone, Copy, Debug)]
pub struct LikeRecord {
    pub liker: Pubkey,
    pub original_post: Pubkey,
    pub timestamp: i64,
    pub bump: u8,
}

/// The fields of a [`LikeRecord`] as mathematical values.
pub ghost struct LikeRecordView {
    pub liker: Seq<u8>,
    pub original_post: Seq<u8>,
    pub timestamp: i64,
    pub bump: u8,
}

impl View for LikeRecord {
    type V = LikeRecordView;

    open spec fn view(&self) -> LikeRecordView {
        LikeRecordView {
            liker: self.liker@,
            original_post: self.original_post@,
            timestamp: self.timestamp,
            bump: self.bump,
        }
    }
}

impl LikeRecordView {
    /// Keys are 32 bytes long.
    pub open spec fn wf(self) -> bool {
        &&& self.liker.len() == 32
        &&& self.original_post.len() == 32
    }

    /// Every string's UTF-8 length fits its `u32` length prefix.
    pub open spec fn fits(self) -> bool {
        true
    }
}

/// A decoded [`LikeRecord`] taken by its view.
pub open spec fn like_record_result_view(res: Result<LikeRecord, DecodeError>) -> Result<LikeRecordView, DecodeError> {
    match res {
        Ok(v) => Ok(v@),
        Err(e) => Err(e),
    }
}

/// An account read as a [`LikeRecord`], taken by its view.
pub open spec fn like_record_account_result_view(res: Result<LikeRecord, AccountError>) -> Result<LikeRecordView, AccountError> {
    match res {
        Ok(v) => Ok(v@),
        Err(e) => Err(e),
    }
}

/// The fields decoded in declaration order, and the bytes left after them (or after the
/// failing field).
#[verifier::opaque]
pub open spec fn spec_read_like_record(s: Seq<u8>) -> Decoded<LikeRecordView> {
    match spec_read_pubkey(s) {
        (Err(e), s) => (Err(e), s),
        (Ok(liker), s) => match spec_read_pubkey(s) {
            (Err(e), s) => (Err(e), s),
            (Ok(original_post), s) => match spec_read_i64(s) {
                (Err(e), s) => (Err(e), s),
                (Ok(timestamp), s) => match spec_read_u8(s) {
                    (Err(e), s) => (Err(e), s),
                    (Ok(bump), s) => (
                        Ok(LikeRecordView { liker, original_post, timestamp, bump }),
                        s,
                    ),
                },
            },
        },
    }
}

/// The Borsh encoding of the fields, in declaration order.
pub open spec fn spec_write_like_record(v: LikeRecordView) -> Seq<u8> {
    v.liker
        + v.original_post
        + spec_write_i64(v.timestamp)
        + seq![v.bump]
}

/// The 8 bytes that open a [`LikeRecord`] account's data.
pub open spec fn like_record_discriminator() -> Seq<u8> {
    seq![179u8, 237, 53, 5, 91, 236, 161, 50]
}

/// Account data read as a [`LikeRecord`]: the discriminator, then the fields.
pub open spec fn spec_try_deserialize_like_record(s: Seq<u8>) -> AccountDecoded<LikeRecordView> {
    spec_account(s, like_record_discriminator(), |b: Seq<u8>| spec_read_like_record(b))
}

/// Account data read as a [`LikeRecord`] without looking at a discriminator.
pub open spec fn spec_try_deserialize_like_record_unchecked(s: Seq<u8>) -> AccountDecoded<LikeRecordView> {
    spec_account_body(spec_read_like_record(s))
}

impl LikeRecord {
    /// The 8 bytes that open this account type's data.
    pub const DISCRIMINATOR: [u8; 8] = [179, 237, 53, 5, 91, 236, 161, 50];

    /// Decodes the fields from the front of the cursor, in declaration order; the cursor ends
    /// after the last field, or, on failure, where the failing field's read left it.
    pub fn deserialize(buf: &mut &[u8]) -> (res: Result<LikeRecord, DecodeError>)
        ensures
            spec_read_like_record(old(buf)@) == (like_record_result_view(res), final(buf)@),
            is_suffix_of(final(buf)@, old(buf)@),
    {
        reveal(spec_read_like_record);
        let ghost start = buf@;
        proof {
            lemma_suffix_refl(start);
        }
        let ghost before = buf@;
        let liker = match read_pubkey(buf) {
            Ok(v) => v,
            Err(e) => {
                proof {
                    lemma_suffix_trans(buf@, before, start);
                }
                return Err(e);
            },
        };
        proof {
            lemma_suffix_trans(buf@, before, start);
        }
        let ghost before = buf@;
        let original_post = match read_pubkey(buf) {
            Ok(v) => v,
            Err(e) => {
                proof {
                    lemma_suffix_trans(buf@, before, start);
                }
                return Err(e);
            },
        };
        proof {
            lemma_suffix_trans(buf@, before, start);
        }
        let ghost before = buf@;
        let timestamp = match read_i64(buf) {
            Ok(v) => v,
            Err(e) => {
                proof {
                    lemma_suffix_trans(buf@, before, start);
                }
                return Err(e);
            },
        };
        proof {
            lemma_suffix_trans(buf@, before, start);
        }
        let ghost before = buf@;
        let bump = match read_u8(buf) {
            Ok(v) => v,
            Err(e) => {
                proof {
                    lemma_suffix_trans(buf@, before, start);
                }
                return Err(e);
            },
        };
        proof {
            lemma_suffix_trans(buf@, before, start);
        }
        Ok(LikeRecord { liker, original_post, timestamp, bump })
    }

    /// Reads a whole account: checks the discriminator, then decodes the fields after it.
    /// Data shorter than 8 bytes is `DiscriminatorNotFound` and other leading bytes are
    /// `DiscriminatorMismatch`, both with the cursor untouched. Otherwise the cursor moves past
    /// the discriminator; fields that do not decode are `DidNotDeserialize`, with the cursor
    /// where the failing read left it. Bytes after the last field are left in the cursor.
    pub fn try_deserialize(buf: &mut &[u8]) -> (res: Result<LikeRecord, AccountError>)
        ensures
            spec_try_deserialize_like_record(old(buf)@) == (like_record_account_result_view(res), final(buf)@),
            res matches Err(AccountError::DidNotDeserialize(_)) ==> old(buf)@.len() >= 8
                && is_suffix_of(final(buf)@, old(buf)@.skip(8)),
            res matches Err(AccountError::DiscriminatorNotFound) ==> final(buf)@ == old(buf)@,
            res matches Err(AccountError::DiscriminatorMismatch) ==> final(buf)@ == old(buf)@,
            res matches Err(AccountError::DiscriminatorNotFound) <==> old(buf)@.len() < 8,
            res matches Err(AccountError::DiscriminatorMismatch) <==> (old(buf)@.len() >= 8 && old(buf)@.take(8)
                != seq![179u8, 237, 53, 5, 91, 236, 161, 50]),
    {
        let disc: [u8; 8] = Self::DISCRIMINATOR;
        assert(disc@ =~= like_record_discriminator());
        match check_discriminator(buf, &disc) {
            Ok(_) => {},
            Err(e) => return Err(e),
        }
        match Self::deserialize(buf) {
            Ok(v) => Ok(v),
            Err(e) => Err(AccountError::DidNotDeserialize(e)),
        }
    }

    /// Reads the fields without checking a discriminator; fields that do not decode are
    /// `DidNotDeserialize`, with the cursor where the failing read left it.
    pub fn try_deserialize_unchecked(buf: &mut &[u8]) -> (res: Result<LikeRecord, AccountError>)
        ensures
            spec_try_deserialize_like_record_unchecked(old(buf)@) == (like_record_account_result_view(res), final(buf)@),
            is_suffix_of(final(buf)@, old(buf)@),
    {
        match Self::deserialize(buf) {
            Ok(v) => Ok(v),
            Err(e) => Err(AccountError::DidNotDeserialize(e)),
        }
    }

    /// The Borsh encoding of the fields (without the discriminator). It fails only when a
    /// string's UTF-8 length does not fit its `u32` length prefix.
    pub fn try_to_vec(&self) -> (res: Result<Vec<u8>, EncodeError>)
        ensures
            res is Ok <==> self@.fits(),
            res matches Ok(bytes) ==> bytes@ == spec_write_like_record(self@),
    {
        let mut out: Vec<u8> = Vec::new();
        write_pubkey(&mut out, &self.liker);
        write_pubkey(&mut out, &self.original_post);
        write_i64(&mut out, self.timestamp);
        write_u8(&mut out, self.bump);
        assert(out@ =~= spec_write_like_record(self@));
        Ok(out)
    }
}

/// Decoding the encoding of a [`LikeRecord`] gives it back, and leaves the bytes that followed.
#[verifier::rlimit(40)]
pub proof fn lemma_like_record_roundtrip(v: LikeRecordView, rest: Seq<u8>)
    requires
        v.wf(),
        v.fits(),
    ensures
        spec_read_like_record(spec_write_like_record(v) + rest) == (Ok::<LikeRecordView, DecodeError>(v), rest),
{
    reveal(spec_read_like_record);
    let t4 = rest;
    let t3 = seq![v.bump] + t4;
    let t2 = spec_write_i64(v.timestamp) + t3;
    let t1 = v.original_post + t2;
    let t0 = v.liker + t1;
    let a0 = v.liker;
    let a1 = v.original_post;
    let a2 = spec_write_i64(v.timestamp);
    let a3 = seq![v.bump];
    let p1 = a0;
    let p2 = p1 + a1;
    let p3 = p2 + a2;
    let p4 = p3 + a3;
    vstd::seq_lib::lemma_concat_associative(p1, a1, t2);
    vstd::seq_lib::lemma_concat_associative(p2, a2, t3);
    vstd::seq_lib::lemma_concat_associative(p3, a3, t4);
    assert(spec_write_like_record(v) + rest == t0);
    lemma_pubkey_roundtrip(v.liker, t1);
    lemma_pubkey_roundtrip(v.original_post, t2);
    lemma_i64_roundtrip(v.timestamp, t3);
    lemma_u8_roundtrip(v.bump, t4);
}

/// Reading account data made of the [`LikeRecord`] discriminator and the encoding of a value gives
/// the value back, and leaves the bytes that followed.
pub proof fn lemma_like_record_account_roundtrip(v: LikeRecordView, rest: Seq<u8>)
    requires
        v.wf(),
        v.fits(),
    ensures
        spec_try_deserialize_like_record(like_record_discriminator() + spec_write_like_record(v) + rest)
            == (Ok::<LikeRecordView, AccountError>(v), rest),
{
    let s = like_record_discriminator() + spec_write_like_record(v) + rest;
    assert(s.take(8) =~= like_record_discriminator());
    assert(s.skip(8) =~= spec_write_like_record(v) + rest);
    lemma_like_record_roundtrip(v, rest);
}

/// Once the discriminator matches, reading the account is reading its fields without a check:
/// the same value or error, and the same bytes left.
pub proof fn lemma_like_record_checked_is_unchecked_after_discriminator(s: Seq<u8>)
    requires
        s.len() >= 8,
        s.take(8) == like_record_discriminator(),
    ensures
        spec_try_deserialize_like_record(s) == spec_try_deserialize_like_record_unchecked(s.skip(8)),
{
}

/// The on-chain layout of a [`LikeRecord`] account, as Anchor writes it: the discriminator
/// `[179, 237, 53, 5, 91, 236, 161, 50]`, then the fields in declaration order, keys as their 32 bytes, integers little-endian
/// (an `i64` as its two's-complement `u64`), an `Option` as a 0 or 1 tag followed by the value,
/// a string as its UTF-8 byte length (`u32`, little-endian) followed by its UTF-8 bytes. Reading
/// such data gives exactly those field values and leaves the bytes after them.
pub proof fn lemma_like_record_layout(liker: Seq<u8>, original_post: Seq<u8>, timestamp: i64, bump: u8, rest: Seq<u8>)
    requires
        liker.len() == 32,
        original_post.len() == 32,
    ensures
        spec_try_deserialize_like_record(
            seq![179u8, 237, 53, 5, 91, 236, 161, 50]
            + liker
            + original_post
            + spec_u64_to_le_bytes(timestamp as u64)
            + seq![bump]
            + rest,
        ) == (Ok::<LikeRecordView, AccountError>(LikeRecordView { liker, original_post, timestamp, bump }), rest),
{
    let v = LikeRecordView { liker, original_post, timestamp, bump };
    assert(seq![179u8, 237, 53, 5, 91, 236, 161, 50]
            + liker
            + original_post
            + spec_u64_to_le_bytes(timestamp as u64)
            + seq![bump]
            + rest =~= like_record_discriminator() + spec_write_like_record(v) + rest);
    lemma_like_record_account_roundtrip(v, rest);
}

/// The Borsh layout of a [`LikeRecord`]'s fields, in declaration order and with no discriminator:
/// keys as their 32 bytes, integers little-endian (an `i64` as its two's-complement `u64`), an
/// `Option` as a 0 or 1 tag followed by the value, a string as its UTF-8 byte length (`u32`,
/// little-endian) followed by its UTF-8 bytes. Decoding such bytes gives exactly those field
/// values and leaves the bytes after them.
pub proof fn lemma_like_record_fields_layout(liker: Seq<u8>, original_post: Seq<u8>, timestamp: i64, bump: u8, rest: Seq<u8>)
    requires
        liker.len() == 32,
        original_post.len() == 32,
    ensures
        spec_read_like_record(
            liker
            + original_post
            + spec_u64_to_le_bytes(timestamp as u64)
            + seq![bump]
            + rest,
        ) == (Ok::<LikeRecordView, DecodeError>(LikeRecordView { liker, original_post, timestamp, bump }), rest),
{
    let v = LikeRecordView { liker, original_post, timestamp, bump };
    assert(liker
            + original_post
            + spec_u64_to_le_bytes(timestamp as u64)
            + seq![bump]
            + rest =~= spec_write_like_record(v) + rest);
    lemma_like_record_roundtrip(v, rest);
}

// ===================== RepostRecord =====================

/// The record that `reposter` reposted `original_post`.
#[derive(Clone, Copy, Debug)]
pub struct RepostRecord {
    pub reposter: Pubkey,
    pub original_post: Pubkey,
    pub timestamp: i64,
    pub bump: u8,
}

/// The fields of a [`RepostRecord`] as mathematical values.
pub ghost struct RepostRecordView {
    pub reposter: Seq<u8>,
    pub original_post: Seq<u8>,
    pub timestamp: i64,
    pub bump: u8,
}

impl View for RepostRecord {
    type V = RepostRecordView;

    open spec fn view(&self) -> RepostRecordView {
        RepostRecordView {
            reposter: self.reposter@,
            original_post: self.original_post@,
            timestamp: self.timestamp,
            bump: self.bump,
        }
    }
}

impl RepostRecordView {
    /// Keys are 32 bytes long.
    pub open spec fn wf(self) -> bool {
        &&& self.reposter.len() == 32
        &&& self.original_post.len() == 32
    }

    /// Every string's UTF-8 length fits its `u32` length prefix.
    pub open spec fn fits(self) -> bool {
        true
    }
}

/// A decoded [`RepostRecord`] taken by its view.
pub open spec fn repost_record_result_view(res: Result<RepostRecord, DecodeError>) -> Result<RepostRecordView, DecodeError> {
    match res {
        Ok(v) => Ok(v@),
        Err(e) => Err(e),
    }
}

/// An account read as a [`RepostRecord`], taken by its view.
pub open spec fn repost_record_account_result_view(res: Result<RepostRecord, AccountError>) -> Result<RepostRecordView, AccountError> {
    match res {
        Ok(v) => Ok(v@),
        Err(e) => Err(e),
    }
}

/// The fields decoded in declaration order, and the bytes left after them (or after the
/// failing field).
#[verifier::opaque]
pub open spec fn spec_read_repost_record(s: Seq<u8>) -> Decoded<RepostRecordView> {
    match spec_read_pubkey(s) {
        (Err(e), s) => (Err(e), s),
        (Ok(reposter), s) => match spec_read_pubkey(s) {
            (Err(e), s) => (Err(e), s),
            (Ok(original_post), s) => match spec_read_i64(s) {
                (Err(e), s) => (Err(e), s),
                (Ok(timestamp), s) => match spec_read_u8(s) {
                    (Err(e), s) => (Err(e), s),
                    (Ok(bump), s) => (
                        Ok(RepostRecordView { reposter, original_post, timestamp, bump }),
                        s,
                    ),
                },
            },
        },
    }
}

/// The Borsh encoding of the fields, in declaration order.
pub open spec fn spec_write_repost_record(v: RepostRecordView) -> Seq<u8> {
    v.reposter
        + v.original_post
        + spec_write_i64(v.timestamp)
        + seq![v.bump]
}

/// The 8 bytes that open a [`RepostRecord`] account's data.
pub open spec fn repost_record_discriminator() -> Seq<u8> {
    seq![134u8, 201, 23, 191, 183, 203, 59, 13]
}

/// Account data read as a [`RepostRecord`]: the discriminator, then the fields.
pub open spec fn spec_try_deserialize_repost_record(s: Seq<u8>) -> AccountDecoded<RepostRecordView> {
    spec_account(s, repost_record_discriminator(), |b: Seq<u8>| spec_read_repost_record(b))
}

/// Account data read as a [`RepostRecord`] without looking at a discriminator.
pub open spec fn spec_try_deserialize_repost_record_unchecked(s: Seq<u8>) -> AccountDecoded<RepostRecordView> {
    spec_account_body(spec_read_repost_record(s))
}

impl RepostRecord {
    /// The 8 bytes that open this account type's data.
    pub const DISCRIMINATOR: [u8; 8] = [134, 201, 23, 191, 183, 203, 59, 13];

    /// Decodes the fields from the front of the cursor, in declaration order; the cursor ends
    /// after the last field, or, on failure, where the failing field's read left it.
    pub fn deserialize(buf: &mut &[u8]) -> (res: Result<RepostRecord, DecodeError>)
        ensures
            spec_read_repost_record(old(buf)@) == (repost_record_result_view(res), final(buf)@),
            is_suffix_of(final(buf)@, old(buf)@),
    {
        reveal(spec_read_repost_record);
        let ghost start = buf@;
        proof {
            lemma_suffix_refl(start);
        }
        let ghost before = buf@;
        let reposter = match read_pubkey(buf) {
            Ok(v) => v,
            Err(e) => {
                proof {
                    lemma_suffix_trans(buf@, before, start);
                }
                return Err(e);
            },
        };
        proof {
            lemma_suffix_trans(buf@, before, start);
        }
        let ghost before = buf@;
        let original_post = match read_pubkey(buf) {
            Ok(v) => v,
            Err(e) => {
                proof {
                    lemma_suffix_trans(buf@, before, start);
                }
                return Err(e);
            },
        };
        proof {
            lemma_suffix_trans(buf@, before, start);
        }
        let ghost before = buf@;
        let timestamp = match read_i64(buf) {
            Ok(v) => v,
            Err(e) => {
                proof {
                    lemma_suffix_trans(buf@, before, start);
                }
                return Err(e);
            },
        };
        proof {
            lemma_suffix_trans(buf@, before, start);
        }
        let ghost before = buf@;
        let bump = match read_u8(buf) {
            Ok(v) => v,
            Err(e) => {
                proof {
                    lemma_suffix_trans(buf@, before, start);
                }
                return Err(e);
            },
        };
        proof {
            lemma_suffix_trans(buf@, before, start);
        }
        Ok(RepostRecord { reposter, original_post, timestamp, bump })
    }

    /// Reads a whole account: checks the discriminator, then decodes the fields after it.
    /// Data shorter than 8 bytes is `DiscriminatorNotFound` and other leading bytes are
    /// `DiscriminatorMismatch`, both with the cursor untouched. Otherwise the cursor moves past
    /// the discriminator; fields that do not decode are `DidNotDeserialize`, with the cursor
    /// where the failing read left it. Bytes after the last field are left in the cursor.
    pub fn try_deserialize(buf: &mut &[u8]) -> (res: Result<RepostRecord, AccountError>)
        ensures
            spec_try_deserialize_repost_record(old(buf)@) == (repost_record_account_result_view(res), final(buf)@),
            res matches Err(AccountError::DidNotDeserialize(_)) ==> old(buf)@.len() >= 8
                && is_suffix_of(final(buf)@, old(buf)@.skip(8)),
            res matches Err(AccountError::DiscriminatorNotFound) ==> final(buf)@ == old(buf)@,
            res matches Err(AccountError::DiscriminatorMismatch) ==> final(buf)@ == old(buf)@,
            res matches Err(AccountError::DiscriminatorNotFound) <==> old(buf)@.len() < 8,
            res matches Err(AccountError::DiscriminatorMismatch) <==> (old(buf)@.len() >= 8 && old(buf)@.take(8)
                != seq![134u8, 201, 23, 191, 183, 203, 59, 13]),
    {
        let disc: [u8; 8] = Self::DISCRIMINATOR;
        assert(disc@ =~= repost_record_discriminator());
        match check_discriminator(buf, &disc) {
            Ok(_) => {},
            Err(e) => return Err(e),
        }
        match Self::deserialize(buf) {
            Ok(v) => Ok(v),
            Err(e) => Err(AccountError::DidNotDeserialize(e)),
        }
    }

    /// Reads the fields without checking a discriminator; fields that do not decode are
    /// `DidNotDeserialize`, with the cursor where the failing read left it.
    pub fn try_deserialize_unchecked(buf: &mut &[u8]) -> (res: Result<RepostRecord, AccountError>)
        ensures
            spec_try_deserialize_repost_record_unchecked(old(buf)@) == (repost_record_account_result_view(res), final(buf)@),
            is_suffix_of(final(buf)@, old(buf)@),
    {
        match Self::deserialize(buf) {
            Ok(v) => Ok(v),
            Err(e) => Err(AccountError::DidNotDeserialize(e)),
        }
    }

    /// The Borsh encoding of the fields (without the discriminator). It fails only when a
    /// string's UTF-8 length does not fit its `u32` length prefix.
    pub fn try_to_vec(&self) -> (res: Result<Vec<u8>, EncodeError>)
        ensures
            res is Ok <==> self@.fits(),
            res matches Ok(bytes) ==> bytes@ == spec_write_repost_record(self@),
    {
        let mut out: Vec<u8> = Vec::new();
        write_pubkey(&mut out, &self.reposter);
        write_pubkey(&mut out, &self.original_post);
        write_i64(&mut out, self.timestamp);
        write_u8(&mut out, self.bump);
        assert(out@ =~= spec_write_repost_record(self@));
        Ok(out)
    }
}

/// Decoding the encoding of a [`RepostRecord`] gives it back, and leaves the bytes that followed.
#[verifier::rlimit(40)]
pub proof fn lemma_repost_record_roundtrip(v: RepostRecordView, rest: Seq<u8>)
    requires
        v.wf(),
        v.fits(),
    ensures
        spec_read_repost_record(spec_write_repost_record(v) + rest) == (Ok::<RepostRecordView, DecodeError>(v), rest),
{
    reveal(spec_read_repost_record);
    let t4 = rest;
    let t3 = seq![v.bump] + t4;
    let t2 = spec_write_i64(v.timestamp) + t3;
    let t1 = v.original_post + t2;
    let t0 = v.reposter + t1;
    let a0 = v.reposter;
    let a1 = v.original_post;
    let a2 = spec_write_i64(v.timestamp);
    let a3 = seq![v.bump];
    let p1 = a0;
    let p2 = p1 + a1;
    let p3 = p2 + a2;
    let p4 = p3 + a3;
    vstd::seq_lib::lemma_concat_associative(p1, a1, t2);
    vstd::seq_lib::lemma_concat_associative(p2, a2, t3);
    vstd::seq_lib::lemma_concat_associative(p3, a3, t4);
    assert(spec_write_repost_record(v) + rest == t0);
    lemma_pubkey_roundtrip(v.reposter, t1);
    lemma_pubkey_roundtrip(v.original_post, t2);
    lemma_i64_roundtrip(v.timestamp, t3);
    lemma_u8_roundtrip(v.bump, t4);
}

/// Reading account data made of the [`RepostRecord`] discriminator and the encoding of a value gives
/// the value back, and leaves the bytes that followed.
pub proof fn lemma_repost_record_account_roundtrip(v: RepostRecordView, rest: Seq<u8>)
    requires
        v.wf(),
        v.fits(),
    ensures
        spec_try_deserialize_repost_record(repost_record_discriminator() + spec_write_repost_record(v) + rest)
            == (Ok::<RepostRecordView, AccountError>(v), rest),
{
    let s = repost_record_discriminator() + spec_write_repost_record(v) + rest;
    assert(s.take(8) =~= repost_record_discriminator());
    assert(s.skip(8) =~= spec_write_repost_record(v) + rest);
    lemma_repost_record_roundtrip(v, rest);
}

/// Once the discriminator matches, reading the account is reading its fields without a check:
/// the same value or error, and the same bytes left.
pub proof fn lemma_repost_record_checked_is_unchecked_after_discriminator(s: Seq<u8>)
    requires
        s.len() >= 8,
        s.take(8) == repost_record_discriminator(),
    ensures
        spec_try_deserialize_repost_record(s) == spec_try_deserialize_repost_record_unchecked(s.skip(8)),
{
}

/// The on-chain layout of a [`RepostRecord`] account, as Anchor writes it: the discriminator
/// `[134, 201, 23, 191, 183, 203, 59, 13]`, then the fields in declaration order, keys as their 32 bytes, integers little-endian
/// (an `i64` as its two's-complement `u64`), an `Option` as a 0 or 1 tag followed by the value,
/// a string as its UTF-8 byte length (`u32`, little-endian) followed by its UTF-8 bytes. Reading
/// such data gives exactly those field values and leaves the bytes after them.
pub proof fn lemma_repost_record_layout(reposter: Seq<u8>, original_post: Seq<u8>, timestamp: i64, bump: u8, rest: Seq<u8>)
    requires
        reposter.len() == 32,
        original_post.len() == 32,
    ensures
        spec_try_deserialize_repost_record(
            seq![134u8, 201, 23, 191, 183, 203, 59, 13]
            + reposter
            + original_post
            + spec_u64_to_le_bytes(timestamp as u64)
            + seq![bump]
            + rest,
        ) == (Ok::<RepostRecordView, AccountError>(RepostRecordView { reposter, original_post, timestamp, bump }), rest),
{
    let v = RepostRecordView { reposter, original_post, timestamp, bump };
    assert(seq![134u8, 201, 23, 191, 183, 203, 59, 13]
            + reposter
            + original_post
            + spec_u64_to_le_bytes(timestamp as u64)
            + seq![bump]
            + rest =~= repost_record_discriminator() + spec_write_repost_record(v) + rest);
    lemma_repost_record_account_roundtrip(v, rest);
}

/// The Borsh layout of a [`RepostRecord`]'s fields, in declaration order and with no discriminator:
/// keys as their 32 bytes, integers little-endian (an `i64` as its two's-complement `u64`), an
/// `Option` as a 0 or 1 tag followed by the value, a string as its UTF-8 byte length (`u32`,
/// little-endian) followed by its UTF-8 bytes. Decoding such bytes gives exactly those field
/// values and leaves the bytes after them.
pub proof fn lemma_repost_record_fields_layout(reposter: Seq<u8>, original_post: Seq<u8>, timestamp: i64, bump: u8, rest: Seq<u8>)
    requires
        reposter.len() == 32,
        original_post.len() == 32,
    ensures
        spec_read_repost_record(
            reposter
            + original_post
            + spec_u64_to_le_bytes(timestamp as u64)
            + seq![bump]
            + rest,
        ) == (Ok::<RepostRecordView, DecodeError>(RepostRecordView { reposter, original_post, timestamp, bump }), rest),
{
    let v = RepostRecordView { reposter, original_post, timestamp, bump };
    assert(reposter
            + original_post
            + spec_u64_to_le_bytes(timestamp as u64)
            + seq![bump]
            + rest =~= spec_write_repost_record(v) + rest);
    lemma_repost_record_roundtrip(v, rest);
}

// ===================== FollowRecord =====================

/// The record that `follower` follows `followed`.
#[derive(Clone, Copy, Debug)]
pub struct FollowRecord {
    pub follower: Pubkey,
    pub followed: Pubkey,
    pub timestamp: i64,
    pub bump: u8,
}

/// The fields of a [`FollowRecord`] as mathematical values.
pub ghost struct FollowRecordView {
    pub follower: Seq<u8>,
    pub followed: Seq<u8>,
    pub timestamp: i64,
    pub bump: u8,
}

impl View for FollowRecord {
    type V = FollowRecordView;

    open spec fn view(&self) -> FollowRecordView {
        FollowRecordView {
            follower: self.follower@,
            followed: self.followed@,
            timestamp: self.timestamp,
            bump: self.bump,
        }
    }
}

impl FollowRecordView {
    /// Keys are 32 bytes long.
    pub open spec fn wf(self) -> bool {
        &&& self.follower.len() == 32
        &&& self.followed.len() == 32
    }

    /// Every string's UTF-8 length fits its `u32` length prefix.
    pub open spec fn fits(self) -> bool {
        true
    }
}

/// A decoded [`FollowRecord`] taken by its view.
pub open spec fn follow_record_result_view(res: Result<FollowRecord, DecodeError>) -> Result<FollowRecordView, DecodeError> {
    match res {
        Ok(v) => Ok(v@),
        Err(e) => Err(e),
    }
}

/// An account read as a [`FollowRecord`], taken by its view.
pub open spec fn follow_record_account_result_view(res: Result<FollowRecord, AccountError>) -> Result<FollowRecordView, AccountError> {
    match res {
        Ok(v) => Ok(v@),
        Err(e) => Err(e),
    }
}

/// The fields decoded in declaration order, and the bytes left after them (or after the
/// failing field).
#[verifier::opaque]
pub open spec fn spec_read_follow_record(s: Seq<u8>) -> Decoded<FollowRecordView> {
    match spec_read_pubkey(s) {
        (Err(e), s) => (Err(e), s),
        (Ok(follower), s) => match spec_read_pubkey(s) {
            (Err(e), s) => (Err(e), s),
            (Ok(followed), s) => match spec_read_i64(s) {
                (Err(e), s) => (Err(e), s),
                (Ok(timestamp), s) => match spec_read_u8(s) {
                    (Err(e), s) => (Err(e), s),
                    (Ok(bump), s) => (
                        Ok(FollowRecordView { follower, followed, timestamp, bump }),
                        s,
                    ),
                },
            },
        },
    }
}

/// The Borsh encoding of the fields, in declaration order.
pub open spec fn spec_write_follow_record(v: FollowRecordView) -> Seq<u8> {
    v.follower
        + v.followed
        + spec_write_i64(v.timestamp)
        + seq![v.bump]
}

/// The 8 bytes that open a [`FollowRecord`] account's data.
pub open spec fn follow_record_discriminator() -> Seq<u8> {
    seq![184u8, 58, 38, 54, 57, 20, 186, 26]
}

/// Account data read as a [`FollowRecord`]: the discriminator, then the fields.
pub open spec fn spec_try_deserialize_follow_record(s: Seq<u8>) -> AccountDecoded<FollowRecordView> {
    spec_account(s, follow_record_discriminator(), |b: Seq<u8>| spec_read_follow_record(b))
}

/// Account data read as a [`FollowRecord`] without looking at a discriminator.
pub open spec fn spec_try_deserialize_follow_record_unchecked(s: Seq<u8>) -> AccountDecoded<FollowRecordView> {
    spec_account_body(spec_read_follow_record(s))
}

impl FollowRecord {
    /// The 8 bytes that open this account type's data.
    pub const DISCRIMINATOR: [u8; 8] = [184, 58, 38, 54, 57, 20, 186, 26];

    /// Decodes the fields from the front of the cursor, in declaration order; the cursor ends
    /// after the last field, or, on failure, where the failing field's read left it.
    pub fn deserialize(buf: &mut &[u8]) -> (res: Result<FollowRecord, DecodeError>)
        ensures
            spec_read_follow_record(old(buf)@) == (follow_record_result_view(res), final(buf)@),
            is_suffix_of(final(buf)@, old(buf)@),
    {
        reveal(spec_read_follow_record);
        let ghost start = buf@;
        proof {
            lemma_suffix_refl(start);
        }
        let ghost before = buf@;
        let follower = match read_pubkey(buf) {
            Ok(v) => v,
            Err(e) => {
                proof {
                    lemma_suffix_trans(buf@, before, start);
                }
                return Err(e);
            },
        };
        proof {
            lemma_suffix_trans(buf@, before, start);
        }
        let ghost before = buf@;
        let followed = match read_pubkey(buf) {
            Ok(v) => v,
            Err(e) => {
                proof {
                    lemma_suffix_trans(buf@, before, start);
                }
                return Err(e);
            },
        };
        proof {
            lemma_suffix_trans(buf@, before, start);
        }
        let ghost before = buf@;
        let timestamp = match read_i64(buf) {
            Ok(v) => v,
            Err(e) => {
                proof {
                    lemma_suffix_trans(buf@, before, start);
                }
                return Err(e);
            },
        };
        proof {
            lemma_suffix_trans(buf@, before, start);
        }
        let ghost before = buf@;
        let bump = match read_u8(buf) {
            Ok(v) => v,
            Err(e) => {
                proof {
                    lemma_suffix_trans(buf@, before, start);
                }
                return Err(e);
            },
        };
        proof {
            lemma_suffix_trans(buf@, before, start);
        }
        Ok(FollowRecord { follower, followed, timestamp, bump })
    }

    /// Reads a whole account: checks the discriminator, then decodes the fields after it.
    /// Data shorter than 8 bytes is `DiscriminatorNotFound` and other leading bytes are
    /// `DiscriminatorMismatch`, both with the cursor untouched. Otherwise the cursor moves past
    /// the discriminator; fields that do not decode are `DidNotDeserialize`, with the cursor
    /// where the failing read left it. Bytes after the last field are left in the cursor.
    pub fn try_deserialize(buf: &mut &[u8]) -> (res: Result<FollowRecord, AccountError>)
        ensures
            spec_try_deserialize_follow_record(old(buf)@) == (follow_record_account_result_view(res), final(buf)@),
            res matches Err(AccountError::DidNotDeserialize(_)) ==> old(buf)@.len() >= 8
                && is_suffix_of(final(buf)@, old(buf)@.skip(8)),
            res matches Err(AccountError::DiscriminatorNotFound) ==> final(buf)@ == old(buf)@,
            res matches Err(AccountError::DiscriminatorMismatch) ==> final(buf)@ == old(buf)@,
            res matches Err(AccountError::DiscriminatorNotFound) <==> old(buf)@.len() < 8,
            res matches Err(AccountError::DiscriminatorMismatch) <==> (old(buf)@.len() >= 8 && old(buf)@.take(8)
                != seq![184u8, 58, 38, 54, 57, 20, 186, 26]),
    {
        let disc: [u8; 8] = Self::DISCRIMINATOR;
        assert(disc@ =~= follow_record_discriminator());
        match check_discriminator(buf, &disc) {
            Ok(_) => {},
            Err(e) => return Err(e),
        }
        match Self::deserialize(buf) {
            Ok(v) => Ok(v),
            Err(e) => Err(AccountError::DidNotDeserialize(e)),
        }
    }

    /// Reads the fields without checking a discriminator; fields that do not decode are
    /// `DidNotDeserialize`, with the cursor where the failing read left it.
    pub fn try_deserialize_unchecked(buf: &mut &[u8]) -> (res: Result<FollowRecord, AccountError>)
        ensures
            spec_try_deserialize_follow_record_unchecked(old(buf)@) == (follow_record_account_result_view(res), final(buf)@),
            is_suffix_of(final(buf)@, old(buf)@),
    {
        match Self::deserialize(buf) {
            Ok(v) => Ok(v),
            Err(e) => Err(AccountError::DidNotDeserialize(e)),
        }
    }

    /// The Borsh encoding of the fields (without the discriminator). It fails only when a
    /// string's UTF-8 length does not fit its `u32` length prefix.
    pub fn try_to_vec(&self) -> (res: Result<Vec<u8>, EncodeError>)
        ensures
            res is Ok <==> self@.fits(),
            res matches Ok(bytes) ==> bytes@ == spec_write_follow_record(self@),
    {
        let mut out: Vec<u8> = Vec::new();
        write_pubkey(&mut out, &self.follower);
        write_pubkey(&mut out, &self.followed);
        write_i64(&mut out, self.timestamp);
        write_u8(&mut out, self.bump);
        assert(out@ =~= spec_write_follow_record(self@));
        Ok(out)
    }
}

/// Decoding the encoding of a [`FollowRecord`] gives it back, and leaves the bytes that followed.
#[verifier::rlimit(40)]
pub proof fn lemma_follow_record_roundtrip(v: FollowRecordView, rest: Seq<u8>)
    requires
        v.wf(),
        v.fits(),
    ensures
        spec_read_follow_record(spec_write_follow_record(v) + rest) == (Ok::<FollowRecordView, DecodeError>(v), rest),
{
    reveal(spec_read_follow_record);
    let t4 = rest;
    let t3 = seq![v.bump] + t4;
    let t2 = spec_write_i64(v.timestamp) + t3;
    let t1 = v.followed + t2;
    let t0 = v.follower + t1;
    let a0 = v.follower;
    let a1 = v.followed;
    let a2 = spec_write_i64(v.timestamp);
    let a3 = seq![v.bump];
    let p1 = a0;
    let p2 = p1 + a1;
    let p3 = p2 + a2;
    let p4 = p3 + a3;
    vstd::seq_lib::lemma_concat_associative(p1, a1, t2);
    vstd::seq_lib::lemma_concat_associative(p2, a2, t3);
    vstd::seq_lib::lemma_concat_associative(p3, a3, t4);
    assert(spec_write_follow_record(v) + rest == t0);
    lemma_pubkey_roundtrip(v.follower, t1);
    lemma_pubkey_roundtrip(v.followed, t2);
    lemma_i64_roundtrip(v.timestamp, t3);
    lemma_u8_roundtrip(v.bump, t4);
}

/// Reading account data made of the [`FollowRecord`] discriminator and the encoding of a value gives
/// the value back, and leaves the bytes that followed.
pub proof fn lemma_follow_record_account_roundtrip(v: FollowRecordView, rest: Seq<u8>)
    requires
        v.wf(),
        v.fits(),
    ensures
        spec_try_deserialize_follow_record(follow_record_discriminator() + spec_write_follow_record(v) + rest)
            == (Ok::<FollowRecordView, AccountError>(v), rest),
{
    let s = follow_record_discriminator() + spec_write_follow_record(v) + rest;
    assert(s.take(8) =~= follow_record_discriminator());
    assert(s.skip(8) =~= spec_write_follow_record(v) + rest);
    lemma_follow_record_roundtrip(v, rest);
}

/// Once the discriminator matches, reading the account is reading its fields without a check:
/// the same value or error, and the same bytes left.
pub proof fn lemma_follow_record_checked_is_unchecked_after_discriminator(s: Seq<u8>)
    requires
        s.len() >= 8,
        s.take(8) == follow_record_discriminator(),
    ensures
        spec_try_deserialize_follow_record(s) == spec_try_deserialize_follow_record_unchecked(s.skip(8)),
{
}

/// The on-chain layout of a [`FollowRecord`] account, as Anchor writes it: the discriminator
/// `[184, 58, 38, 54, 57, 20, 186, 26]`, then the fields in declaration order, keys as their 32 bytes, integers little-endian
/// (an `i64` as its two's-complement `u64`), an `Option` as a 0 or 1 tag followed by the value,
/// a string as its UTF-8 byte length (`u32`, little-endian) followed by its UTF-8 bytes. Reading
/// such data gives exactly those field values and leaves the bytes after them.
pub proof fn lemma_follow_record_layout(follower: Seq<u8>, followed: Seq<u8>, timestamp: i64, bump: u8, rest: Seq<u8>)
    requires
        follower.len() == 32,
        followed.len() == 32,
    ensures
        spec_try_deserialize_follow_record(
            seq![184u8, 58, 38, 54, 57, 20, 186, 26]
            + follower
            + followed
            + spec_u64_to_le_bytes(timestamp as u64)
            + seq![bump]
            + rest,
        ) == (Ok::<FollowRecordView, AccountError>(FollowRecordView { follower, followed, timestamp, bump }), rest),
{
    let v = FollowRecordView { follower, followed, timestamp, bump };
    assert(seq![184u8, 58, 38, 54, 57, 20, 186, 26]
            + follower
            + followed
            + spec_u64_to_le_bytes(timestamp as u64)
            + seq![bump]
            + rest =~= follow_record_discriminator() + spec_write_follow_record(v) + rest);
    lemma_follow_record_account_roundtrip(v, rest);
}

/// The Borsh layout of a [`FollowRecord`]'s fields, in declaration order and with no discriminator:
/// keys as their 32 bytes, integers little-endian (an `i64` as its two's-complement `u64`), an
/// `Option` as a 0 or 1 tag followed by the value, a string as its UTF-8 byte length (`u32`,
/// little-endian) followed by its UTF-8 bytes. Decoding such bytes gives exactly those field
/// values and leaves the bytes after them.
pub proof fn lemma_follow_record_fields_layout(follower: Seq<u8>, followed: Seq<u8>, timestamp: i64, bump: u8, rest: Seq<u8>)
    requires
        follower.len() == 32,
        followed.len() == 32,
    ensures
        spec_read_follow_record(
            follower
            + followed
            + spec_u64_to_le_bytes(timestamp as u64)
            + seq![bump]
            + rest,
        ) == (Ok::<FollowRecordView, DecodeError>(FollowRecordView { follower, followed, timestamp, bump }), rest),
{
    let v = FollowRecordView { follower, followed, timestamp, bump };
    assert(follower
            + followed
            + spec_u64_to_le_bytes(timestamp as u64)
            + seq![bump]
            + rest =~= spec_write_follow_record(v) + rest);
    lemma_follow_record_roundtrip(v, rest);
}

} // verus!
