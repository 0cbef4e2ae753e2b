//! Phrase generation, seed derivation and seed encoding.
//!
//! The pairing phrase is a mnemonic sentence drawn from a fixed dictionary;
//! the session seed is derived from the creator's phrase and the server-wide
//! password by a key-derivation function; seeds travel outside the server as
//! URL-safe base64 strings.  All three operations are performed by outside
//! crates and are exposed to the verified code through the trusted items
//! below.

use vstd::prelude::*;

verus! {

/// Whether a character sequence is a sentence of exactly `n` dictionary-shaped
/// words: each word is `MIN_WORD_LEN` to `MAX_WORD_LEN` characters long and
/// free of spaces, and single spaces stand between the words.
pub open spec fn words_shaped(s: Seq<char>, n: nat) -> bool
    decreases n,
{
    if n == 0 {
        s.len() == 0
    } else if n == 1 {
        crate::MIN_WORD_LEN <= s.len() <= crate::MAX_WORD_LEN && (forall|i: int|
            0 <= i < s.len() ==> s[i] != ' ')
    } else {
        exists|k: int|
            {
                &&& crate::MIN_WORD_LEN <= k <= crate::MAX_WORD_LEN
                &&& k < s.len()
                &&& forall|i: int| 0 <= i < k ==> s[i] != ' '
                &&& s[k] == ' '
                &&& words_shaped(s.skip(k + 1), (n - 1) as nat)
            }
    }
}

/// The seed bytes that the key-derivation function returns for a phrase and
/// a password.  The derivation is deterministic: the same phrase and password
/// always give the same seed.
pub uninterp spec fn seed_of(phrase: Seq<char>, password: Seq<char>) -> Seq<u8>;

/// Whether a phrase parses as a well-formed mnemonic sentence of the fixed
/// dictionary (word count, dictionary membership and checksum).
pub uninterp spec fn mnemonic_ok(phrase: Seq<char>) -> bool;

/// The URL-safe base64 encoding of a byte sequence.
pub uninterp spec fn b64url_of(bytes: Seq<u8>) -> Seq<char>;

/// The bytes that URL-safe base64 decoding yields for a string, or `None`
/// when the string is not a valid encoding.
pub uninterp spec fn b64url_decode_of(s: Seq<char>) -> Option<Seq<u8>>;

/// Relies on `bip39::Mnemonic::new` (package `tiny-bip39`): a freshly drawn
/// twelve-word English mnemonic.  Its phrase joins twelve dictionary words,
/// each of three to eight letters, with single spaces, and parses back through
/// `bip39::Mnemonic::from_phrase`.  The draw is random, so nothing beyond
/// this shape and its validity is promised.
#[verifier::external_body]
pub(crate) fn generate_phrase() -> (r: String)
    ensures
        crate::MIN_PHRASE_LEN <= r@.len() <= crate::MAX_PHRASE_LEN,
        words_shaped(r@, crate::PHRASE_WORDS as nat),
        mnemonic_ok(r@),
{
    bip39::Mnemonic::new(bip39::MnemonicType::Words12, bip39::Language::English)
        .phrase()
        .to_owned()
}

/// Relies on `bip39::Mnemonic::from_phrase`, which accepts exactly the
/// well-formed mnemonic sentences, and on `bip39::Seed::new`, whose result is
/// a function of the phrase and the password alone (a PBKDF2 of the phrase
/// with the password in the salt).
#[verifier::external_body]
pub(crate) fn derive_seed(phrase: &str, password: &str) -> (r: Option<Vec<u8>>)
    ensures
        r is Some <==> mnemonic_ok(phrase@),
        r matches Some(s) ==> s@ == seed_of(phrase@, password@),
{
    match bip39::Mnemonic::from_phrase(phrase, bip39::Language::English) {
        Ok(m) => Some(bip39::Seed::new(&m, password).as_bytes().to_vec()),
        Err(_) => None,
    }
}

/// Relies on `base64::engine::general_purpose::URL_SAFE.encode`: the padded
/// URL-safe encoding of the input, which its own `decode` maps back to the
/// input.
#[verifier::external_body]
pub(crate) fn encode_seed(seed: &Vec<u8>) -> (r: String)
    ensures
        r@ == b64url_of(seed@),
        b64url_decode_of(r@) == Some(seed@),
{
    base64::Engine::encode(&base64::engine::general_purpose::URL_SAFE, seed.as_slice())
}

/// Relies on `base64::engine::general_purpose::URL_SAFE.decode`: it yields
/// bytes exactly for the valid padded URL-safe encodings.
#[verifier::external_body]
pub(crate) fn decode_seed(seed: &str) -> (r: Option<Vec<u8>>)
    ensures
        r matches Some(v) ==> b64url_decode_of(seed@) == Some(v@),
        r is None ==> b64url_decode_of(seed@) is None,
{
    base64::Engine::decode(&base64::engine::general_purpose::URL_SAFE, seed).ok()
}

} // verus!
