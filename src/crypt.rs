//! Encryption of one tag's most recent version: whether it runs, and the
//! fragments it produces from the payload read chunk by chunk.

use vstd::prelude::*;
use vstd::arithmetic::div_mod::lemma_fundamental_div_mod_converse;

use crate::cryptutil::{
    aes256gcm_seal, encrypt_fragment, fragment_count, fragment_header_bytes, AesKey, Argon2Param,
    CryptoError, AES_MAX_PLAINTEXT, AES_TAG_SIZE, FRAGMENT_HEADER_SIZE,
};
use crate::filename::{fragment_name, fragment_name_text};
use crate::ledger::{CryptInfo, CryptType};

verus! {

/// Why the crypt unit of a tag failed.
#[derive(Debug, Clone, Copy, PartialEq, Eq)]
pub enum CryptUnitError {
    /// The policy is AES-256-GCM but no key is loaded.
    MissingKey,
}

/// The key and parameters that a crypt unit encrypts with under `ctype`:
/// none for `PlainText`, which writes nothing.
pub fn crypt_unit_key(ctype: &CryptType) -> (r: Result<Option<(AesKey, Argon2Param)>, CryptUnitError>)
    ensures
        *ctype == CryptType::PlainText ==> r matches Ok(None),
        *ctype matches CryptType::Aes256GcmArgon2 { key: None, .. } ==> r == Err::<
            Option<(AesKey, Argon2Param)>,
            CryptUnitError,
        >(CryptUnitError::MissingKey),
        *ctype matches CryptType::Aes256GcmArgon2 { key: Some(k), param } ==> r == Ok::<
            Option<(AesKey, Argon2Param)>,
            CryptUnitError,
        >(Some((k, param))),
{
    match ctype {
        CryptType::PlainText => Ok(None),
        CryptType::Aes256GcmArgon2 { key: None, .. } => Err(CryptUnitError::MissingKey),
        CryptType::Aes256GcmArgon2 { key: Some(k), param } => Ok(Some((*k, *param))),
    }
}

/// The state of one crypt unit while it reads its payload: each chunk read
/// becomes the next fragment. Every chunk but the last is full.
pub struct FragmentWriter {
    /// Stored name of the version being encrypted.
    pub name: String,
    pub key: AesKey,
    pub param: Argon2Param,
    /// Bytes per full chunk.
    pub fragment_size: u64,
    /// Number of fragments produced so far.
    pub index: u64,
    /// Plaintext bytes encrypted so far.
    pub total: u64,
    /// A short chunk came: the payload has ended.
    pub done: bool,
}

impl FragmentWriter {
    /// The fragment count matches the bytes seen, and while no short chunk
    /// has come every chunk was full.
    pub open spec fn wf(&self) -> bool {
        &&& self.fragment_size > 0
        &&& self.index == fragment_count(self.total as nat, self.fragment_size as nat)
        &&& !self.done ==> self.total == self.index * self.fragment_size
    }

    /// Starts encrypting the stored version `name`.
    pub fn new(name: &str, key: AesKey, param: Argon2Param, fragment_size: u64) -> (r: FragmentWriter)
        requires
            fragment_size > 0,
        ensures
            r.wf(),
            r.name@ == name@,
            r.key == key,
            r.param == param,
            r.fragment_size == fragment_size,
            r.index == 0,
            r.total == 0,
            !r.done,
    {
        FragmentWriter { name: name.to_owned(), key, param, fragment_size, index: 0, total: 0, done: false }
    }

    /// Encrypts the next chunk. Returns the fragment's file name and
    /// content: the header, then the chunk sealed under the writer's key.
    pub fn encrypt_next(&mut self, chunk: &[u8]) -> (r: Result<(String, Vec<u8>), CryptoError>)
        requires
            old(self).wf(),
            !old(self).done,
            0 < chunk@.len() <= old(self).fragment_size,
            old(self).index < u64::MAX,
            old(self).total + chunk@.len() <= u64::MAX,
        ensures
            r is Ok <==> chunk@.len() <= AES_MAX_PLAINTEXT,
            r is Err ==> *final(self) == *old(self),
            r matches Ok((fname, f)) ==> {
                &&& fname@ == fragment_name_text(old(self).name@, old(self).index as nat)
                &&& f@.len() == FRAGMENT_HEADER_SIZE + chunk@.len() + AES_TAG_SIZE
                &&& f@.take(FRAGMENT_HEADER_SIZE as int) == fragment_header_bytes(old(self).param, f@.subrange(28, 40))
                &&& f@.skip(FRAGMENT_HEADER_SIZE as int) == aes256gcm_seal(old(self).key@, f@.subrange(28, 40), chunk@)
                &&& final(self).wf()
                &&& final(self).name == old(self).name
                &&& final(self).key == old(self).key
                &&& final(self).param == old(self).param
                &&& final(self).fragment_size == old(self).fragment_size
                &&& final(self).index == old(self).index + 1
                &&& final(self).total == old(self).total + chunk@.len()
                &&& final(self).done == (chunk@.len() < old(self).fragment_size)
            },
    {
        let fragment = match encrypt_fragment(&self.key, &self.param, chunk) {
            Ok(f) => f,
            Err(e) => {
                return Err(e);
            },
        };
        let fname = fragment_name(self.name.as_str(), self.index);
        let len = chunk.len() as u64;
        let ghost i = self.index as int;
        let ghost fs = self.fragment_size as int;
        proof {
            if len == self.fragment_size {
                assert((i + 1) * fs == i * fs + fs) by (nonlinear_arith);
                lemma_fundamental_div_mod_converse(i * fs + fs, fs, i + 1, 0);
            } else {
                lemma_fundamental_div_mod_converse(i * fs + len, fs, i, len as int);
            }
        }
        self.index = self.index + 1;
        self.total = self.total + len;
        self.done = len < self.fragment_size;
        Ok((fname, fragment))
    }

    /// The encryption record of the finished unit, without the key.
    pub fn finish(&self) -> (r: CryptInfo)
        requires
            self.wf(),
        ensures
            r.crypt == (CryptType::Aes256GcmArgon2 { key: None, param: self.param }),
            r.total_size == self.total,
            r.fragment_size == self.fragment_size,
            r.fragment_size > 0,
            self.index == fragment_count(r.total_size as nat, r.fragment_size as nat),
    {
        CryptInfo {
            crypt: CryptType::Aes256GcmArgon2 { key: None, param: self.param },
            total_size: self.total,
            fragment_size: self.fragment_size,
        }
    }
}

} // verus!
