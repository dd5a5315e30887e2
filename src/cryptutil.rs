//! Key derivation, authenticated encryption and the fragment layout.
//!
//! Keys come from a passphrase through Argon2id; data is sealed with
//! AES-256-GCM under a fresh random nonce. Each fragment file is a fixed
//! header (salt, the three Argon2 costs, nonce) followed by the ciphertext
//! with its authentication tag.

use vstd::prelude::*;
use vstd::string::*;

use aes_gcm::aead::Aead;
use aes_gcm::{Aes256Gcm, KeyInit};
use rand::rngs::OsRng;
use rand::RngCore;

verus! {

/// Argon2 salt length in bytes (128 bits).
pub const ARGON2_SALT_SIZE: usize = 16;

/// Argon2 memory cost in KiB: the argon2 crate's default, 19 MiB.
pub const ARGON2_MCOST: u32 = 19456;

/// Argon2 number of passes: the argon2 crate's default.
pub const ARGON2_TCOST: u32 = 2;

/// Argon2 parallelism: the argon2 crate's default.
pub const ARGON2_PCOST: u32 = 1;

/// Key length of AES-256 in bytes.
pub const AES_KEY_SIZE: usize = 32;

/// AES-GCM nonce length in bytes (96 bits).
pub const AES_NONCE_SIZE: usize = 12;

/// AES-GCM authentication tag length in bytes (128 bits).
pub const AES_TAG_SIZE: usize = 16;

/// Largest plaintext, in bytes, that AES-GCM seals in one message.
pub const AES_MAX_PLAINTEXT: u64 = 0x10_0000_0000;

/// Length of a fragment header: salt, three costs and nonce.
pub const FRAGMENT_HEADER_SIZE: usize = 40;

pub type Argon2Salt = [u8; 16];

pub type AesKey = [u8; 32];

pub type AesNonce = [u8; 12];

/// What Argon2id (version 0x13, no secret, no associated data) derives as a
/// 32-byte key from a passphrase, a salt and the three costs.
pub uninterp spec fn argon2id_key(pwd: Seq<char>, salt: Seq<u8>, m_cost: u32, t_cost: u32, p_cost: u32) -> Seq<u8>;

/// What AES-256-GCM seals from a key, a nonce and a plaintext, with no
/// associated data: the ciphertext followed by the tag.
pub uninterp spec fn aes256gcm_seal(key: Seq<u8>, nonce: Seq<u8>, plain: Seq<u8>) -> Seq<u8>;

/// What AES-256-GCM opens from a key, a nonce and a sealed message, with
/// no associated data: the plaintext, or `None` where the tag does not match.
pub uninterp spec fn aes256gcm_open(key: Seq<u8>, nonce: Seq<u8>, sealed: Seq<u8>) -> Option<Seq<u8>>;

/// Costs that Argon2 accepts, for a passphrase of `pwd_len` bytes.
pub open spec fn argon2_accepts(m_cost: u32, t_cost: u32, p_cost: u32, pwd_len: nat) -> bool {
    &&& m_cost >= 8
    &&& m_cost >= 8 * p_cost
    &&& t_cost >= 1
    &&& 1 <= p_cost <= 0xFF_FFFF
    &&& pwd_len <= 0xFFFF_FFFF
}

/// Fills an array with bytes from the operating system's secure source.
///
/// Relies on rand's `OsRng::fill_bytes`; nothing is known of the bytes.
#[verifier::external_body]
pub fn generate_random<const S: usize>() -> [u8; S] {
    let mut buf: [u8; S] = [0; S];
    OsRng.fill_bytes(&mut buf);
    buf
}

/// Relies on argon2's `Params::new` and `Argon2::hash_password_into`
/// (Argon2id, version 0x13, 32-byte output): they succeed exactly when the
/// costs and the passphrase length are within the crate's limits and the
/// salt holds at least 8 bytes, and the key depends on the inputs alone.
#[verifier::external_body]
fn argon2_hash(pwd: &str, salt: &Argon2Salt, m_cost: u32, t_cost: u32, p_cost: u32) -> (r: Option<AesKey>)
    requires
        p_cost <= 0xFF_FFFF,
    ensures
        r is Some <==> argon2_accepts(m_cost, t_cost, p_cost, pwd.spec_bytes().len()),
        r is Some ==> r->Some_0@ == argon2id_key(pwd@, salt@, m_cost, t_cost, p_cost),
{
    let params = argon2::Params::new(m_cost, t_cost, p_cost, Some(AES_KEY_SIZE)).ok()?;
    let argon2 = argon2::Argon2::new(argon2::Algorithm::default(), argon2::Version::default(), params);
    let mut key: AesKey = [0; AES_KEY_SIZE];
    argon2.hash_password_into(pwd.as_bytes(), salt, &mut key).ok()?;
    Some(key)
}

/// Relies on aes-gcm's `Aes256Gcm::encrypt`: it refuses plaintexts longer
/// than 2^36 bytes, and otherwise returns the ciphertext, as long as the
/// plaintext, followed by the 16-byte tag.
#[verifier::external_body]
fn aes256gcm_encrypt(key: &AesKey, nonce: &AesNonce, input: &[u8]) -> (r: Option<Vec<u8>>)
    ensures
        r is Some <==> input@.len() <= AES_MAX_PLAINTEXT,
        r is Some ==> r->Some_0@ == aes256gcm_seal(key@, nonce@, input@),
        r is Some ==> r->Some_0@.len() == input@.len() + AES_TAG_SIZE,
{
    let cipher = Aes256Gcm::new(key.into());
    cipher.encrypt(nonce.into(), input).ok()
}

/// Relies on aes-gcm's `Aes256Gcm::decrypt`: it returns the plaintext when
/// the tag matches, and a message sealed under the same key and nonce opens
/// to its plaintext.
#[verifier::external_body]
fn aes256gcm_decrypt(key: &AesKey, nonce: &AesNonce, input: &[u8]) -> (r: Option<Vec<u8>>)
    ensures
        r is Some <==> aes256gcm_open(key@, nonce@, input@) is Some,
        r is Some ==> r->Some_0@ == aes256gcm_open(key@, nonce@, input@)->Some_0,
        forall|m: Seq<u8>|
            m.len() <= AES_MAX_PLAINTEXT && input@ == #[trigger] aes256gcm_seal(key@, nonce@, m)
                ==> r is Some && r->Some_0@ == m,
{
    let cipher = Aes256Gcm::new(key.into());
    cipher.decrypt(nonce.into(), input).ok()
}

/// Why a cryptographic step failed.
#[derive(Debug, Clone, Copy, PartialEq, Eq)]
pub enum CryptoError {
    /// Argon2 refused the costs or the passphrase.
    InvalidKdfParams,
    /// The plaintext is longer than AES-GCM seals in one message.
    PlaintextTooLong,
    /// The data is shorter than a fragment header.
    FragmentTooShort,
    /// The ciphertext or the nonce was altered, or the key is wrong.
    Authentication,
}

/// Derives the AES key for `pwd` from a salt and the Argon2 costs.
pub fn aeskey_from_password(salt: Argon2Salt, m_cost: u32, t_cost: u32, p_cost: u32, pwd: &str) -> (r: Result<AesKey, CryptoError>)
    ensures
        r is Ok <==> argon2_accepts(m_cost, t_cost, p_cost, pwd.spec_bytes().len()),
        r is Err ==> r == Err::<AesKey, CryptoError>(CryptoError::InvalidKdfParams),
        r is Ok ==> r->Ok_0@ == argon2id_key(pwd@, salt@, m_cost, t_cost, p_cost),
{
    if p_cost > 0xFF_FFFF {
        return Err(CryptoError::InvalidKdfParams);
    }
    match argon2_hash(pwd, &salt, m_cost, t_cost, p_cost) {
        Some(key) => Ok(key),
        None => Err(CryptoError::InvalidKdfParams),
    }
}

/// Draws a fresh salt and derives a key for `pwd` with the default costs.
/// Returns the salt, the three costs and the key.
pub fn aeskey_new_from_password(pwd: &str) -> (r: (Argon2Salt, u32, u32, u32, AesKey))
    requires
        pwd.spec_bytes().len() <= 0xFFFF_FFFF,
    ensures
        r.1 == ARGON2_MCOST,
        r.2 == ARGON2_TCOST,
        r.3 == ARGON2_PCOST,
        r.4@ == argon2id_key(pwd@, r.0@, r.1, r.2, r.3),
{
    let salt: Argon2Salt = generate_random();
    let m_cost = ARGON2_MCOST;
    let t_cost = ARGON2_TCOST;
    let p_cost = ARGON2_PCOST;
    match aeskey_from_password(salt, m_cost, t_cost, p_cost, pwd) {
        Ok(key) => (salt, m_cost, t_cost, p_cost, key),
        Err(_) => unreached(),
    }
}

/// Seals `input` under `key` with a fresh random nonce; returns the nonce
/// and the ciphertext with its tag.
pub fn encrypt_aes256gcm(key: &AesKey, input: &[u8]) -> (r: Result<(AesNonce, Vec<u8>), CryptoError>)
    ensures
        r is Ok <==> input@.len() <= AES_MAX_PLAINTEXT,
        r is Err ==> r == Err::<(AesNonce, Vec<u8>), CryptoError>(CryptoError::PlaintextTooLong),
        r is Ok ==> r->Ok_0.1@ == aes256gcm_seal(key@, r->Ok_0.0@, input@),
        r is Ok ==> r->Ok_0.1@.len() == input@.len() + AES_TAG_SIZE,
{
    let nonce: AesNonce = generate_random();
    match aes256gcm_encrypt(key, &nonce, input) {
        Some(sealed) => Ok((nonce, sealed)),
        None => Err(CryptoError::PlaintextTooLong),
    }
}

/// Opens a message sealed by [`encrypt_aes256gcm`]. A message sealed under
/// the same key and nonce gives its plaintext back; one whose tag does not
/// match gives [`CryptoError::Authentication`].
pub fn decrypt_aes256gcm(key: &AesKey, nonce: AesNonce, input: &[u8]) -> (r: Result<Vec<u8>, CryptoError>)
    ensures
        r is Ok <==> aes256gcm_open(key@, nonce@, input@) is Some,
        r is Err ==> r == Err::<Vec<u8>, CryptoError>(CryptoError::Authentication),
        r is Ok ==> r->Ok_0@ == aes256gcm_open(key@, nonce@, input@)->Some_0,
        forall|m: Seq<u8>|
            m.len() <= AES_MAX_PLAINTEXT && input@ == #[trigger] aes256gcm_seal(key@, nonce@, m)
                ==> r is Ok && r->Ok_0@ == m,
{
    match aes256gcm_decrypt(key, &nonce, input) {
        Some(plain) => Ok(plain),
        None => Err(CryptoError::Authentication),
    }
}

/// `x` as four bytes, least significant first.
pub open spec fn le_u32_bytes(x: u32) -> Seq<u8> {
    seq![(x & 0xff) as u8, ((x >> 8u32) & 0xff) as u8, ((x >> 16u32) & 0xff) as u8, ((x >> 24u32) & 0xff) as u8]
}

/// The Argon2 parameters that a key was derived with.
#[derive(Debug, Clone, Copy, PartialEq, Eq)]
pub struct Argon2Param {
    pub salt: Argon2Salt,
    pub m_cost: u32,
    pub t_cost: u32,
    pub p_cost: u32,
}

/// The header of a fragment: salt, memory, time and parallelism costs as
/// little-endian 32-bit integers, then the nonce.
pub open spec fn fragment_header_bytes(param: Argon2Param, nonce: Seq<u8>) -> Seq<u8> {
    param.salt@ + le_u32_bytes(param.m_cost) + le_u32_bytes(param.t_cost) + le_u32_bytes(
        param.p_cost,
    ) + nonce
}

fn push_u32_le(out: &mut Vec<u8>, x: u32)
    ensures
        final(out)@ == old(out)@ + le_u32_bytes(x),
{
    out.push((x & 0xff) as u8);
    out.push(((x >> 8u32) & 0xff) as u8);
    out.push(((x >> 16u32) & 0xff) as u8);
    out.push(((x >> 24u32) & 0xff) as u8);
    assert(final(out)@ =~= old(out)@ + le_u32_bytes(x));
}

fn push_all(out: &mut Vec<u8>, data: &[u8])
    ensures
        final(out)@ == old(out)@ + data@,
{
    let mut i: usize = 0;
    while i < data.len()
        invariant
            i <= data@.len(),
            out@ == old(out)@ + data@.subrange(0, i as int),
        decreases data@.len() - i,
    {
        out.push(data[i]);
        assert(data@.subrange(0, i + 1) =~= data@.subrange(0, i as int) + seq![data@[i as int]]);
        i = i + 1;
    }
    assert(data@.subrange(0, data@.len() as int) =~= data@);
}

/// Builds the header of a fragment sealed under `nonce`.
pub fn fragment_header(param: &Argon2Param, nonce: &AesNonce) -> (r: Vec<u8>)
    ensures
        r@ == fragment_header_bytes(*param, nonce@),
        r@.len() == FRAGMENT_HEADER_SIZE,
{
    let mut out: Vec<u8> = Vec::new();
    push_all(&mut out, param.salt.as_slice());
    push_u32_le(&mut out, param.m_cost);
    push_u32_le(&mut out, param.t_cost);
    push_u32_le(&mut out, param.p_cost);
    push_all(&mut out, nonce.as_slice());
    assert(out@ =~= fragment_header_bytes(*param, nonce@));
    out
}

/// Encrypts one chunk into a fragment: the header, then the chunk sealed
/// under `key` and the nonce that the header holds.
pub fn encrypt_fragment(key: &AesKey, param: &Argon2Param, chunk: &[u8]) -> (r: Result<Vec<u8>, CryptoError>)
    ensures
        r is Ok <==> chunk@.len() <= AES_MAX_PLAINTEXT,
        r is Err ==> r == Err::<Vec<u8>, CryptoError>(CryptoError::PlaintextTooLong),
        r is Ok ==> {
            let f = r->Ok_0@;
            &&& f.len() == FRAGMENT_HEADER_SIZE + chunk@.len() + AES_TAG_SIZE
            &&& f.take(FRAGMENT_HEADER_SIZE as int) == fragment_header_bytes(*param, f.subrange(28, 40))
            &&& f.skip(FRAGMENT_HEADER_SIZE as int) == aes256gcm_seal(key@, f.subrange(28, 40), chunk@)
        },
{
    match encrypt_aes256gcm(key, chunk) {
        Ok((nonce, sealed)) => {
            let mut out = fragment_header(param, &nonce);
            let ghost header = out@;
            push_all(&mut out, sealed.as_slice());
            assert(out@.take(40) =~= header);
            assert(out@.skip(40) =~= sealed@);
            assert(out@.subrange(28, 40) =~= nonce@);
            Ok(out)
        },
        Err(e) => Err(e),
    }
}

/// Decrypts one fragment with `key`, reading the nonce from its header.
/// A fragment made by [`encrypt_fragment`] under the same key gives its
/// chunk back.
pub fn decrypt_fragment(key: &AesKey, fragment: &[u8]) -> (r: Result<Vec<u8>, CryptoError>)
    ensures
        fragment@.len() < FRAGMENT_HEADER_SIZE <==> r == Err::<Vec<u8>, CryptoError>(
            CryptoError::FragmentTooShort,
        ),
        r is Ok <==> fragment@.len() >= FRAGMENT_HEADER_SIZE && aes256gcm_open(
            key@,
            fragment@.subrange(28, 40),
            fragment@.skip(FRAGMENT_HEADER_SIZE as int),
        ) is Some,
        r is Ok ==> r->Ok_0@ == aes256gcm_open(
            key@,
            fragment@.subrange(28, 40),
            fragment@.skip(FRAGMENT_HEADER_SIZE as int),
        )->Some_0,
        forall|m: Seq<u8>|
            fragment@.len() >= FRAGMENT_HEADER_SIZE && m.len() <= AES_MAX_PLAINTEXT
                && fragment@.skip(FRAGMENT_HEADER_SIZE as int) == #[trigger] aes256gcm_seal(
                key@,
                fragment@.subrange(28, 40),
                m,
            ) ==> r is Ok && r->Ok_0@ == m,
{
    if fragment.len() < FRAGMENT_HEADER_SIZE {
        return Err(CryptoError::FragmentTooShort);
    }
    let mut nonce: AesNonce = [0; AES_NONCE_SIZE];
    let mut i: usize = 0;
    while i < AES_NONCE_SIZE
        invariant
            fragment@.len() >= 40,
            i <= 12,
            nonce@.len() == 12,
            forall|j: int| 0 <= j < i ==> nonce@[j] == fragment@[28 + j],
        decreases 12 - i,
    {
        nonce[i] = fragment[28 + i];
        i = i + 1;
    }
    assert(nonce@ =~= fragment@.subrange(28, 40));
    let mut sealed: Vec<u8> = Vec::new();
    let mut j: usize = FRAGMENT_HEADER_SIZE;
    while j < fragment.len()
        invariant
            40 <= j <= fragment@.len(),
            sealed@ == fragment@.subrange(40, j as int),
        decreases fragment@.len() - j,
    {
        sealed.push(fragment[j]);
        assert(fragment@.subrange(40, j + 1) =~= fragment@.subrange(40, j as int) + seq![fragment@[j as int]]);
        j = j + 1;
    }
    assert(sealed@ =~= fragment@.skip(40));
    decrypt_aes256gcm(key, nonce, sealed.as_slice())
}

/// Number of fragments for `total` bytes cut into pieces of `fragment_size`.
pub open spec fn fragment_count(total: nat, fragment_size: nat) -> nat
    recommends
        fragment_size > 0,
{
    if total % fragment_size == 0 {
        total / fragment_size
    } else {
        total / fragment_size + 1
    }
}

/// Two derivations from the same passphrase, salt and costs give the same
/// key.
pub proof fn lemma_key_derivation_deterministic(
    pwd: &str,
    salt: Argon2Salt,
    m_cost: u32,
    t_cost: u32,
    p_cost: u32,
    k1: AesKey,
    k2: AesKey,
)
    requires
        k1@ == argon2id_key(pwd@, salt@, m_cost, t_cost, p_cost),
        k2@ == argon2id_key(pwd@, salt@, m_cost, t_cost, p_cost),
    ensures
        k1 == k2,
{
    assert(k1 =~= k2) by {
        assert forall|i: int| 0 <= i < 32 implies k1[i] == k2[i] by {
            assert(k1@[i] == k2@[i]);
        }
    }
}

} // verus!
