//! Key material and its derivation.
//!
//! A candidate key is a 32-byte secret scalar in the valid range of the
//! curve. From it the outside libraries derive three textual encodings:
//! the wallet-import-format string of the private key, the hex text of the
//! compressed public key, and the pay-to-pubkey-hash address, all for the
//! fixed mainnet parameter. The derivations are deterministic functions of
//! the secret bytes alone, which the contracts state through uninterpreted
//! names; everything downstream (matching, batching, recording) is proved
//! against those names.

use vstd::prelude::*;

verus! {

/// The group order of the secp256k1 curve, written in four 64-bit limbs
/// (most significant first): a secret scalar is valid iff its big-endian
/// value lies strictly between zero and this bound.
pub open spec fn curve_order() -> nat {
    ((((0xFFFFFFFF_FFFFFFFF * 0x10000_0000_0000_0000) + 0xFFFFFFFF_FFFFFFFE)
        * 0x10000_0000_0000_0000 + 0xBAAEDCE6_AF48A03B) * 0x10000_0000_0000_0000
        + 0xBFD25E8C_D0364141) as nat
}

/// The big-endian value of a byte string.
pub open spec fn be_val(s: Seq<u8>) -> nat
    decreases s.len(),
{
    if s.len() == 0 {
        0
    } else {
        (be_val(s.drop_last()) * 256 + s.last()) as nat
    }
}

/// Whether `s` encodes a secret scalar in the valid range.
pub open spec fn valid_secret(s: Seq<u8>) -> bool {
    s.len() == 32 && 0 < be_val(s) < curve_order()
}

/// One nonempty line of log text: no byte is a newline.
pub open spec fn text_line(s: Seq<u8>) -> bool {
    s.len() > 0 && (forall|i: int| 0 <= i < s.len() ==> #[trigger] s[i] != 10)
}

/// Whether `v` is one nonempty line of text, free of newlines.
pub fn is_text_line(v: &Vec<u8>) -> (b: bool)
    ensures
        b == text_line(v@),
{
    if v.len() == 0 {
        return false;
    }
    let mut i: usize = 0;
    while i < v.len()
        invariant
            i <= v.len(),
            forall|j: int| 0 <= j < i ==> #[trigger] v@[j] != 10,
        decreases v.len() - i,
    {
        if v[i] == 10 {
            return false;
        }
        i = i + 1;
    }
    true
}

/// What the wallet-import-format encoding of the private key with secret
/// bytes `sk` is (mainnet, compressed).
pub uninterp spec fn wif_of(sk: Seq<u8>) -> Seq<u8>;

/// What the hex text of the compressed public key derived from `sk` is.
pub uninterp spec fn pubkey_text_of(sk: Seq<u8>) -> Seq<u8>;

/// What the pay-to-pubkey-hash address derived from `sk` is (mainnet).
pub uninterp spec fn p2pkh_of(sk: Seq<u8>) -> Seq<u8>;

/// The key material of one candidate: the secret scalar and its three
/// derived textual encodings, all as plain bytes.
pub struct KeyMaterial {
    pub secret: Vec<u8>,
    pub wif: Vec<u8>,
    pub pubkey: Vec<u8>,
    pub address: Vec<u8>,
}

/// The mathematical image of one `KeyMaterial`.
#[verifier::ext_equal]
pub ghost struct KeyMaterialView {
    pub secret: Seq<u8>,
    pub wif: Seq<u8>,
    pub pubkey: Seq<u8>,
    pub address: Seq<u8>,
}

impl View for KeyMaterial {
    type V = KeyMaterialView;

    open spec fn view(&self) -> KeyMaterialView {
        KeyMaterialView {
            secret: self.secret@,
            wif: self.wif@,
            pubkey: self.pubkey@,
            address: self.address@,
        }
    }
}

impl KeyMaterialView {
    /// Well-formedness: a 32-byte secret and three newline-free nonempty
    /// text fields, so that one record of the match log is unambiguous.
    pub open spec fn wf(self) -> bool {
        &&& self.secret.len() == 32
        &&& text_line(self.wif)
        &&& text_line(self.pubkey)
        &&& text_line(self.address)
    }
}

impl KeyMaterial {
    pub open spec fn wf(&self) -> bool {
        self@.wf()
    }

    /// Runtime check of well-formedness, for callers outside the library.
    pub fn is_wf(&self) -> (b: bool)
        ensures
            b == self.wf(),
    {
        self.secret.len() == 32 && is_text_line(&self.wif) && is_text_line(&self.pubkey)
            && is_text_line(&self.address)
    }
}

/// Whether `k` carries exactly the material derived from the secret `sk`.
pub open spec fn derived_from(k: KeyMaterialView, sk: Seq<u8>) -> bool {
    &&& k.secret == sk
    &&& k.wif == wif_of(sk)
    &&& k.pubkey == pubkey_text_of(sk)
    &&& k.address == p2pkh_of(sk)
}

/// Relies on `secp256k1::SecretKey::from_slice`, `bitcoin::PrivateKey::new`,
/// `bitcoin::PublicKey::from_private_key` (elliptic-curve scalar
/// multiplication), `bitcoin::PrivateKey::to_wif`, the hex `Display` of
/// `bitcoin::PublicKey`, and `bitcoin::Address::p2pkh` with its base58
/// `Display`. With the network fixed to mainnet and compressed keys, each
/// result is a function of the 32 secret bytes alone, and each encoding is
/// nonempty text over the base58 or hex alphabet, so it holds no newline.
#[verifier::external_body]
fn derive_parts(sk: &Vec<u8>) -> (r: (Vec<u8>, Vec<u8>, Vec<u8>))
    requires
        valid_secret(sk@),
    ensures
        r.0@ == wif_of(sk@),
        r.1@ == pubkey_text_of(sk@),
        r.2@ == p2pkh_of(sk@),
        text_line(r.0@),
        text_line(r.1@),
        text_line(r.2@),
{
    let secp = secp256k1::Secp256k1::new();
    let sec = secp256k1::SecretKey::from_slice(sk.as_slice()).unwrap();
    let priv_key = bitcoin::PrivateKey::new(sec, bitcoin::network::constants::Network::Bitcoin);
    let pub_key = bitcoin::PublicKey::from_private_key(&secp, &priv_key);
    let address = bitcoin::Address::p2pkh(&pub_key, bitcoin::network::constants::Network::Bitcoin);
    (
        priv_key.to_wif().into_bytes(),
        pub_key.to_string().into_bytes(),
        address.to_string().into_bytes(),
    )
}

/// Relies on `secp256k1::SecretKey::new` with `secp256k1::rand::thread_rng`:
/// it fills 32 bytes from a cryptographically secure generator and redraws
/// until they verify as a secret key, so every outcome is 32 bytes whose
/// big-endian value lies strictly between zero and the group order.
#[verifier::external_body]
fn random_secret() -> (r: Vec<u8>)
    ensures
        valid_secret(r@),
{
    let sec = secp256k1::SecretKey::new(&mut secp256k1::rand::thread_rng());
    sec[..].to_vec()
}

/// Derive the full key material of a given secret scalar.
pub fn derive_key_material(secret: Vec<u8>) -> (km: KeyMaterial)
    requires
        valid_secret(secret@),
    ensures
        km.wf(),
        derived_from(km@, secret@),
{
    let parts = derive_parts(&secret);
    KeyMaterial { secret, wif: parts.0, pubkey: parts.1, address: parts.2 }
}

/// Draw a fresh secret scalar and derive its key material.
pub fn generate_key_material() -> (km: KeyMaterial)
    ensures
        km.wf(),
        valid_secret(km@.secret),
        derived_from(km@, km@.secret),
{
    let secret = random_secret();
    derive_key_material(secret)
}

/// Derivation purity: any two key materials derived from the same secret
/// scalar agree in every field.
pub proof fn lemma_derivation_deterministic(a: KeyMaterialView, b: KeyMaterialView, sk: Seq<u8>)
    requires
        derived_from(a, sk),
        derived_from(b, sk),
    ensures
        a == b,
{
    assert(a =~= b);
}

} // verus!
