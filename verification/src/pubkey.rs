//! Account addresses: 32-byte public keys and their base58 text form.
use vstd::prelude::*;
use std::str::FromStr;
use vstd::string::StringSliceAdditionalSpecFns;

verus! {

/// Number of bytes in a public key.
pub const PUBKEY_BYTES: usize = 32;

/// A 32-byte account address.
#[derive(Clone, Copy, Debug)]
pub struct Pubkey(pub [u8; 32]);

impl View for Pubkey {
    type V = Seq<u8>;

    open spec fn view(&self) -> Seq<u8> {
        self.0@
    }
}

/// Why a base58 string is not a public key.
#[derive(Clone, Copy, Debug, PartialEq, Eq, Structural)]
pub enum PubkeyParseError {
    /// The text decodes to a number of bytes other than 32, or is too long.
    WrongSize,
    /// The text holds a character outside the base58 alphabet.
    Invalid,
}

/// The bytes (or the error) that base58 decoding of `s` into a 32-byte key yields.
pub uninterp spec fn pubkey_from_base58(s: Seq<char>) -> Result<Seq<u8>, PubkeyParseError>;

impl Pubkey {
    /// Builds a key from its 32 bytes.
    pub fn new_from_array(bytes: [u8; 32]) -> (key: Pubkey)
        ensures
            key@ == bytes@,
    {
        Pubkey(bytes)
    }

    /// The 32 bytes of this key.
    pub fn to_bytes(&self) -> (bytes: [u8; 32])
        ensures
            bytes@ == self@,
    {
        self.0
    }

    /// Whether two keys hold the same bytes.
    pub fn same_as(&self, other: &Pubkey) -> (res: bool)
        ensures
            res == (self@ == other@),
    {
        let mut i: usize = 0;
        while i < PUBKEY_BYTES
            invariant
                i <= PUBKEY_BYTES,
                self@.len() == 32,
                other@.len() == 32,
                forall|j: int| 0 <= j < i ==> self@[j] == other@[j],
            decreases PUBKEY_BYTES - i,
        {
            if self.0[i] != other.0[i] {
                return false;
            }
            i = i + 1;
        }
        assert(self@ =~= other@);
        true
    }

    /// Parses the base58 text form of a key.
    pub fn from_base58(s: &str) -> (res: Result<Pubkey, PubkeyParseError>)
        ensures
            parsed_key_view(res) == pubkey_from_base58(s@),
            s.spec_bytes().len() > 44 ==> res matches Err(PubkeyParseError::WrongSize),
    {
        parse_base58_pubkey(s)
    }
}

/// A parse result with the key taken by its bytes.
pub open spec fn parsed_key_view(res: Result<Pubkey, PubkeyParseError>) -> Result<Seq<u8>, PubkeyParseError> {
    match res {
        Ok(key) => Ok(key@),
        Err(e) => Err(e),
    }
}

/// Calls `Pubkey::from_str` of `solana_pubkey` (through `anchor_lang`): base58 decoding into
/// exactly 32 bytes. Claimed: the result is the function `pubkey_from_base58` of the text, and a
/// text longer than 44 bytes is refused as `WrongSize`, which the source tests first.
#[verifier::external_body]
fn parse_base58_pubkey(s: &str) -> (res: Result<Pubkey, PubkeyParseError>)
    ensures
        parsed_key_view(res) == pubkey_from_base58(s@),
        s.spec_bytes().len() > 44 ==> res matches Err(PubkeyParseError::WrongSize),
{
    match <anchor_lang::solana_program::pubkey::Pubkey as FromStr>::from_str(s) {
        Ok(key) => Ok(Pubkey(key.to_bytes())),
        Err(anchor_lang::solana_program::pubkey::ParsePubkeyError::WrongSize) => Err(PubkeyParseError::WrongSize),
        Err(anchor_lang::solana_program::pubkey::ParsePubkeyError::Invalid) => Err(PubkeyParseError::Invalid),
    }
}

} // verus!
