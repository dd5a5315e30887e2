//! Ingestion of one inbox file: which files are payloads, where a payload
//! goes in the repository, and whether its checksum sidecar vouches for it.

use vstd::prelude::*;
use vstd::string::*;

use md5::{Digest, Md5};

use crate::filename::{
    filename_parts, is_sidecar, is_sidecar_name, sidecar_name, sidecar_name_text, split_filename,
    stored_name, stored_name_text,
};
use crate::ledger::RepositoryFile;
use crate::util::{hex_value, is_hex, str_to_md5};

verus! {

/// The MD5 digest of `data`.
pub uninterp spec fn md5_digest(data: Seq<u8>) -> Seq<u8>;

/// Relies on md-5's `Md5::digest`: the 16-byte MD5 digest of the data.
#[verifier::external_body]
fn md5_of(data: &[u8]) -> (r: [u8; 16])
    ensures
        r@ == md5_digest(data@),
{
    Md5::digest(data).into()
}

/// Why one inbox file was not ingested.
#[derive(Debug, Clone, Copy, PartialEq, Eq)]
pub enum IngestError {
    /// The name is not `{prefix}{digits}.{ext}`.
    InvalidFileName,
    /// The sidecar does not start with 32 hexadecimal digits.
    BadSidecar,
    /// The payload's digest differs from the sidecar's.
    IntegrityMismatch,
}

/// Where an inbox payload goes.
pub struct IngestPlan {
    pub tag: String,
    pub date: String,
    pub ext: String,
    /// Name in the repository: `{tag}_{date}.{ext}`.
    pub stored_name: String,
    /// Name of its sidecar in the repository.
    pub stored_sidecar: String,
    /// Name of its sidecar in the inbox.
    pub source_sidecar: String,
}

/// Decides what happens to the inbox file `file_name`: a sidecar is left
/// for its payload (`None`); a payload gets its place in the repository.
pub fn plan_ingest(file_name: &str) -> (r: Result<Option<IngestPlan>, IngestError>)
    ensures
        is_sidecar(file_name@) <==> r matches Ok(None),
        r is Err ==> r == Err::<Option<IngestPlan>, IngestError>(IngestError::InvalidFileName),
        !is_sidecar(file_name@) && filename_parts(file_name@) is None <==> r == Err::<
            Option<IngestPlan>,
            IngestError,
        >(IngestError::InvalidFileName),
        r matches Ok(Some(p)) ==> {
            &&& filename_parts(file_name@) == Some((p.tag@, p.date@, p.ext@))
            &&& p.stored_name@ == stored_name_text(p.tag@, p.date@, p.ext@)
            &&& p.stored_sidecar@ == sidecar_name_text(p.stored_name@)
            &&& p.source_sidecar@ == sidecar_name_text(file_name@)
        },
{
    if is_sidecar_name(file_name) {
        return Ok(None);
    }
    match split_filename(file_name) {
        Ok((tag, date, ext)) => {
            let stored = stored_name(tag, date, ext);
            let stored_sidecar = sidecar_name(stored.as_str());
            let source_sidecar = sidecar_name(file_name);
            Ok(
                Some(
                    IngestPlan {
                        tag: tag.to_owned(),
                        date: date.to_owned(),
                        ext: ext.to_owned(),
                        stored_name: stored,
                        stored_sidecar,
                        source_sidecar,
                    },
                ),
            )
        },
        Err(_) => Err(IngestError::InvalidFileName),
    }
}

/// The part of a sidecar that holds the digest: its first 32 characters.
pub open spec fn sidecar_digest_text(text: Seq<char>) -> Seq<char> {
    if text.len() > 32 {
        text.take(32)
    } else {
        text
    }
}

/// A digest text that reads as an MD5 digest.
pub open spec fn is_digest_text(t: Seq<char>) -> bool {
    t.len() == 32 && forall|i: int| 0 <= i < 32 ==> is_hex(#[trigger] t[i])
}

/// The digest text `t` stands for the bytes `d`.
pub open spec fn digest_matches(t: Seq<char>, d: Seq<u8>) -> bool {
    d.len() == 16 && forall|i: int|
        0 <= i < 16 ==> (#[trigger] d[i]) as int == hex_value(t[2 * i]) * 16 + hex_value(t[2 * i + 1])
}

/// Checks a payload's digest against its sidecar's text. Returns the
/// digest text to store beside the archived payload.
pub fn check_sidecar(sidecar_text: &str, digest: &[u8; 16]) -> (r: Result<String, IngestError>)
    ensures
        !is_digest_text(sidecar_digest_text(sidecar_text@)) <==> r == Err::<String, IngestError>(
            IngestError::BadSidecar,
        ),
        is_digest_text(sidecar_digest_text(sidecar_text@)) && !digest_matches(
            sidecar_digest_text(sidecar_text@),
            digest@,
        ) <==> r == Err::<String, IngestError>(IngestError::IntegrityMismatch),
        r is Ok <==> is_digest_text(sidecar_digest_text(sidecar_text@)) && digest_matches(
            sidecar_digest_text(sidecar_text@),
            digest@,
        ),
        r is Ok ==> r->Ok_0@ == sidecar_digest_text(sidecar_text@),
{
    let n = sidecar_text.unicode_len();
    let end: usize = if n > 32 {
        32
    } else {
        n
    };
    let text = sidecar_text.substring_char(0, end);
    assert(text@ =~= sidecar_digest_text(sidecar_text@));
    match str_to_md5(text) {
        Ok(expected) => {
            assert(is_digest_text(text@));
            let mut i: usize = 0;
            while i < 16
                invariant
                    text@ == sidecar_digest_text(sidecar_text@),
                    is_digest_text(text@),
                    forall|j: int|
                        0 <= j < 16 ==> (#[trigger] expected@[j]) as int == hex_value(text@[2 * j]) * 16
                            + hex_value(text@[2 * j + 1]),
                    i <= 16,
                    forall|j: int| 0 <= j < i ==> expected@[j] == digest@[j],
                decreases 16 - i,
            {
                if expected[i] != digest[i] {
                    assert(!digest_matches(text@, digest@)) by {
                        assert(expected@[i as int] != digest@[i as int]);
                        assert((expected@[i as int]) as int == hex_value(text@[2 * i]) * 16 + hex_value(
                            text@[2 * i + 1],
                        ));
                    }
                    return Err(IngestError::IntegrityMismatch);
                }
                i = i + 1;
            }
            assert(digest_matches(text@, digest@)) by {
                assert forall|j: int| 0 <= j < 16 implies (#[trigger] digest@[j]) as int == hex_value(text@[2 * j]) * 16
                    + hex_value(text@[2 * j + 1]) by {
                    assert(expected@[j] == digest@[j]);
                }
            }
            Ok(text.to_owned())
        },
        Err(_) => Err(IngestError::BadSidecar),
    }
}

/// Checks a payload's content against its sidecar's text. Returns the
/// digest text to store beside the archived payload.
pub fn verify_payload(sidecar_text: &str, content: &[u8]) -> (r: Result<String, IngestError>)
    ensures
        !is_digest_text(sidecar_digest_text(sidecar_text@)) <==> r == Err::<String, IngestError>(
            IngestError::BadSidecar,
        ),
        is_digest_text(sidecar_digest_text(sidecar_text@)) && !digest_matches(
            sidecar_digest_text(sidecar_text@),
            md5_digest(content@),
        ) <==> r == Err::<String, IngestError>(IngestError::IntegrityMismatch),
        r is Ok <==> is_digest_text(sidecar_digest_text(sidecar_text@)) && digest_matches(
            sidecar_digest_text(sidecar_text@),
            md5_digest(content@),
        ),
        r is Ok ==> r->Ok_0@ == sidecar_digest_text(sidecar_text@),
{
    let digest = md5_of(content);
    check_sidecar(sidecar_text, &digest)
}

/// The ledger entry for an archived payload: its tag and its new version,
/// which has no encryption record yet.
pub fn ingest_record(plan: &IngestPlan) -> (r: (String, RepositoryFile))
    ensures
        r.0@ == plan.tag@,
        r.1@ == (plan.stored_name@, plan.stored_sidecar@, None::<crate::ledger::CryptInfo>),
{
    (
        plan.tag.clone(),
        RepositoryFile { name: plan.stored_name.clone(), md5name: plan.stored_sidecar.clone(), crypt: None },
    )
}

} // verus!
