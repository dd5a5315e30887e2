//! The repository ledger: tags, the version history of each tag, and the
//! active encryption policy.
//!
//! Versions of a tag are kept in strictly descending order of their stored
//! name. Stored names end in a zero-padded timestamp, so the first version of
//! a tag is its most recent one.

use vstd::prelude::*;
use vstd::string::*;

use crate::cryptutil::{aeskey_from_password, argon2_accepts, argon2id_key, AesKey, Argon2Param, CryptoError};
use crate::util::{bytes_to_hex, decimal_text, hex_text, push_decimal};

verus! {

/// Strict lexicographic order of texts by character code, which is the
/// order of Rust's `str` comparison.
pub open spec fn name_lt(a: Seq<char>, b: Seq<char>) -> bool
    decreases a.len(),
{
    if a.len() == 0 {
        b.len() > 0
    } else if b.len() == 0 {
        false
    } else if a[0] != b[0] {
        a[0] < b[0]
    } else {
        name_lt(a.drop_first(), b.drop_first())
    }
}

pub proof fn lemma_name_lt_irreflexive(a: Seq<char>)
    ensures
        !name_lt(a, a),
    decreases a.len(),
{
    if a.len() > 0 {
        lemma_name_lt_irreflexive(a.drop_first());
    }
}

pub proof fn lemma_name_lt_transitive(a: Seq<char>, b: Seq<char>, c: Seq<char>)
    requires
        name_lt(a, b),
        name_lt(b, c),
    ensures
        name_lt(a, c),
    decreases a.len(),
{
    if a.len() > 0 && b.len() > 0 && c.len() > 0 {
        if a[0] == b[0] && b[0] == c[0] {
            lemma_name_lt_transitive(a.drop_first(), b.drop_first(), c.drop_first());
        }
    }
}

pub proof fn lemma_name_lt_total(a: Seq<char>, b: Seq<char>)
    requires
        a != b,
    ensures
        name_lt(a, b) || name_lt(b, a),
    decreases a.len(),
{
    if a.len() > 0 && b.len() > 0 && a[0] == b[0] {
        if a.drop_first() == b.drop_first() {
            assert(a =~= seq![a[0]] + a.drop_first());
            assert(b =~= seq![b[0]] + b.drop_first());
        }
        lemma_name_lt_total(a.drop_first(), b.drop_first());
    } else if a.len() == 0 && b.len() == 0 {
        assert(a =~= b);
    }
}

/// True when `a` sorts strictly before `b`.
pub fn str_lt(a: &str, b: &str) -> (r: bool)
    ensures
        r == name_lt(a@, b@),
{
    let na = a.unicode_len();
    let nb = b.unicode_len();
    let mut i: usize = 0;
    assert(a@.skip(0) =~= a@);
    assert(b@.skip(0) =~= b@);
    while i < na && i < nb
        invariant
            na == a@.len(),
            nb == b@.len(),
            i <= na,
            i <= nb,
            name_lt(a@, b@) == name_lt(a@.skip(i as int), b@.skip(i as int)),
        decreases na - i,
    {
        let ca = a.get_char(i);
        let cb = b.get_char(i);
        assert(a@.skip(i as int)[0] == ca);
        assert(b@.skip(i as int)[0] == cb);
        if ca != cb {
            return ca < cb;
        }
        assert(a@.skip(i as int).drop_first() =~= a@.skip(i + 1));
        assert(b@.skip(i as int).drop_first() =~= b@.skip(i + 1));
        i = i + 1;
    }
    i == na && i < nb
}

/// Schema version of the ledger written by this release.
pub const CONFIG_VERSION: u32 = 1;

/// The encryption policy.
#[derive(Debug, Clone, Copy, PartialEq, Eq)]
pub enum CryptType {
    /// No encryption: crypt runs do nothing.
    PlainText,
    /// AES-256-GCM under a key derived from a passphrase by Argon2id. The key
    /// is held only in memory; the ledger keeps the derivation parameters.
    Aes256GcmArgon2 { key: Option<AesKey>, param: Argon2Param },
}

/// What a crypt run recorded for one version.
#[derive(Debug, Clone, Copy, PartialEq, Eq)]
pub struct CryptInfo {
    /// The policy used, without the key.
    pub crypt: CryptType,
    /// Plaintext size in bytes.
    pub total_size: u64,
    /// Plaintext bytes per fragment (the last may hold fewer); never zero.
    pub fragment_size: u64,
}

/// One archived version of a tag.
#[derive(Debug, Clone, PartialEq, Eq)]
pub struct RepositoryFile {
    /// Stored name, `{tag}_{timestamp}.{ext}`.
    pub name: String,
    /// Name of its checksum sidecar.
    pub md5name: String,
    /// Set once the version has been fragmented and encrypted.
    pub crypt: Option<CryptInfo>,
}

/// A version as the contracts see it: stored name, sidecar name, record.
pub type FileView = (Seq<char>, Seq<char>, Option<CryptInfo>);

impl View for RepositoryFile {
    type V = FileView;

    open spec fn view(&self) -> FileView {
        (self.name@, self.md5name@, self.crypt)
    }
}

impl RepositoryFile {
    /// A copy of this version.
    pub fn duplicate(&self) -> (r: RepositoryFile)
        ensures
            r@ == self@,
    {
        RepositoryFile { name: self.name.clone(), md5name: self.md5name.clone(), crypt: self.crypt }
    }
}

/// All versions of one tag, most recent first.
#[derive(Debug, Clone, PartialEq, Eq)]
pub struct TagEntry {
    pub tag: String,
    pub versions: Vec<RepositoryFile>,
}

pub open spec fn versions_view(vs: Seq<RepositoryFile>) -> Seq<FileView> {
    vs.map_values(|f: RepositoryFile| f@)
}

/// Strictly descending by stored name.
pub open spec fn descending(vs: Seq<FileView>) -> bool {
    forall|i: int, j: int| 0 <= i < j < vs.len() ==> name_lt(#[trigger] vs[j].0, #[trigger] vs[i].0)
}

/// True when some version in `vs` has the stored name `n`.
pub open spec fn has_name(vs: Seq<FileView>, n: Seq<char>) -> bool {
    exists|i: int| 0 <= i < vs.len() && #[trigger] vs[i].0 == n
}

/// Where a version named `n` goes in a descending list: after every
/// version whose name is not below `n`.
pub open spec fn desc_position(vs: Seq<FileView>, n: Seq<char>) -> int
    decreases vs.len(),
{
    if vs.len() == 0 || name_lt(vs[0].0, n) {
        0
    } else {
        1 + desc_position(vs.drop_first(), n)
    }
}

/// `vs` with `v` added in its place, unless a version of that name is
/// already there (it is then kept as it is).
pub open spec fn insert_desc(vs: Seq<FileView>, v: FileView) -> Seq<FileView> {
    if has_name(vs, v.0) {
        vs
    } else {
        vs.insert(desc_position(vs, v.0), v)
    }
}

/// The tag → versions mapping of the ledger.
pub struct Repository {
    /// One entry per tag.
    pub entries: Vec<TagEntry>,
}

impl Repository {
    /// Tags are unique, and each tag has at least one version, in strictly
    /// descending order of stored name.
    pub open spec fn wf(&self) -> bool {
        &&& forall|i: int, j: int|
            0 <= i < self.entries@.len() && 0 <= j < self.entries@.len() && i != j
                ==> #[trigger] self.entries@[i].tag@ != #[trigger] self.entries@[j].tag@
        &&& forall|i: int|
            0 <= i < self.entries@.len() ==> #[trigger] self.entries@[i].versions@.len() > 0
                && descending(versions_view(self.entries@[i].versions@))
    }

    pub open spec fn has_tag(&self, t: Seq<char>) -> bool {
        exists|i: int| 0 <= i < self.entries@.len() && #[trigger] self.entries@[i].tag@ == t
    }

    pub open spec fn tag_index(&self, t: Seq<char>) -> int {
        choose|i: int| 0 <= i < self.entries@.len() && #[trigger] self.entries@[i].tag@ == t
    }
}

impl View for Repository {
    type V = Map<Seq<char>, Seq<FileView>>;

    open spec fn view(&self) -> Map<Seq<char>, Seq<FileView>> {
        Map::new(
            |t: Seq<char>| self.has_tag(t),
            |t: Seq<char>| versions_view(self.entries@[self.tag_index(t)].versions@),
        )
    }
}

impl Repository {
    proof fn lemma_view_at(&self, i: int)
        requires
            self.wf(),
            0 <= i < self.entries@.len(),
        ensures
            self@.contains_key(self.entries@[i].tag@),
            self@[self.entries@[i].tag@] == versions_view(self.entries@[i].versions@),
    {
        let t = self.entries@[i].tag@;
        assert(self.has_tag(t));
        let j = self.tag_index(t);
        assert(self.entries@[j].tag@ == t);
    }

    /// An empty repository.
    pub fn new() -> (r: Repository)
        ensures
            r.wf(),
            r@ == Map::<Seq<char>, Seq<FileView>>::empty(),
    {
        let r = Repository { entries: Vec::new() };
        assert(r@ =~= Map::<Seq<char>, Seq<FileView>>::empty());
        r
    }

    /// Index of the entry for `tag`.
    fn find_tag(&self, tag: &str) -> (r: Option<usize>)
        ensures
            r is None <==> !self.has_tag(tag@),
            r is Some ==> r->Some_0 < self.entries@.len() && self.entries@[r->Some_0 as int].tag@
                == tag@,
    {
        let mut i: usize = 0;
        while i < self.entries.len()
            invariant
                i <= self.entries@.len(),
                forall|j: int| 0 <= j < i ==> #[trigger] self.entries@[j].tag@ != tag@,
            decreases self.entries@.len() - i,
        {
            if crate::util::str_eq(self.entries[i].tag.as_str(), tag) {
                return Some(i);
            }
            i = i + 1;
        }
        None
    }

    /// Records a newly archived version under `tag`, creating the tag where
    /// it is new. A version whose stored name the tag already has is kept as
    /// it was.
    pub fn insert_version(&mut self, tag: &str, file: RepositoryFile)
        requires
            old(self).wf(),
        ensures
            final(self).wf(),
            final(self)@ == old(self)@.insert(
                tag@,
                if old(self)@.contains_key(tag@) {
                    insert_desc(old(self)@[tag@], file@)
                } else {
                    seq![file@]
                },
            ),
    {
        let ghost old_self = *self;
        match self.find_tag(tag) {
            Some(i) => {
                proof {
                    old_self.lemma_view_at(i as int);
                }
                let mut entry = self.entries.remove(i);
                insert_into_versions(&mut entry.versions, file);
                self.entries.insert(i, entry);
                assert(self.entries@ =~= old_self.entries@.update(i as int, entry));
                proof {
                    assert(entry.tag == old_self.entries@[i as int].tag);
                    assert forall|a: int| 0 <= a < self.entries@.len() implies #[trigger] self.entries@[a].tag@
                        == old_self.entries@[a].tag@ by {}
                    assert forall|a: int| 0 <= a < self.entries@.len() implies #[trigger] self.entries@[a].versions@.len() > 0
                        && descending(versions_view(self.entries@[a].versions@)) by {
                        if a != i {
                            assert(self.entries@[a] == old_self.entries@[a]);
                        }
                    }
                    assert(self.wf());
                    self.lemma_view_at(i as int);
                    assert forall|t: Seq<char>| #[trigger] self.has_tag(t) == (old_self.has_tag(t) || t == tag@) by {
                        if old_self.has_tag(t) {
                            let k = old_self.tag_index(t);
                            assert(self.entries@[k].tag@ == t);
                        }
                        if self.has_tag(t) {
                            let k = self.tag_index(t);
                            assert(k == i || old_self.entries@[k].tag@ == t);
                        }
                    }
                    assert forall|t: Seq<char>| self.has_tag(t) && t != tag@ implies self@[t] == old_self@[t] by {
                        let k = old_self.tag_index(t);
                        old_self.lemma_view_at(k);
                        self.lemma_view_at(k);
                    }
                }
                assert(self@ =~= old_self@.insert(tag@, insert_desc(old_self@[tag@], file@)));
            },
            None => {
                let ghost fv = file@;
                let mut versions: Vec<RepositoryFile> = Vec::new();
                versions.push(file);
                let entry = TagEntry { tag: tag.to_owned(), versions };
                self.entries.push(entry);
                let ghost n = old_self.entries@.len();
                assert(self.entries@ =~= old_self.entries@.push(entry));
                assert(versions_view(entry.versions@) =~= seq![fv]);
                proof {
                    assert forall|a: int| 0 <= a < n implies #[trigger] self.entries@[a].tag@ != tag@ by {
                        if self.entries@[a].tag@ == tag@ {
                            assert(old_self.entries@[a].tag@ == tag@);
                        }
                    }
                    assert(descending(seq![fv]));
                    assert forall|a: int| 0 <= a < self.entries@.len() implies #[trigger] self.entries@[a].versions@.len() > 0
                        && descending(versions_view(self.entries@[a].versions@)) by {
                        if a != n {
                            assert(self.entries@[a] == old_self.entries@[a]);
                        }
                    }
                    assert(self.wf());
                    self.lemma_view_at(n as int);
                    assert forall|t: Seq<char>| #[trigger] self.has_tag(t) == (old_self.has_tag(t) || t == tag@) by {
                        if old_self.has_tag(t) {
                            let k = old_self.tag_index(t);
                            assert(self.entries@[k].tag@ == t);
                        }
                        if self.has_tag(t) {
                            let k = self.tag_index(t);
                            assert(k == n || old_self.entries@[k].tag@ == t);
                        }
                    }
                    assert forall|t: Seq<char>| self.has_tag(t) && t != tag@ implies self@[t] == old_self@[t] by {
                        let k = old_self.tag_index(t);
                        old_self.lemma_view_at(k);
                        self.lemma_view_at(k);
                    }
                }
                assert(self@ =~= old_self@.insert(tag@, seq![fv]));
            },
        }
    }

    /// Gives the most recent version of `tag` the encryption record `info`.
    /// Returns false, changing nothing, where the tag is unknown.
    pub fn mark_latest_encrypted(&mut self, tag: &str, info: CryptInfo) -> (r: bool)
        requires
            old(self).wf(),
        ensures
            final(self).wf(),
            r == old(self)@.contains_key(tag@),
            final(self)@ == mark_one(old(self)@, tag@, info),
    {
        let ghost old_self = *self;
        match self.find_tag(tag) {
            Some(i) => {
                proof {
                    old_self.lemma_view_at(i as int);
                }
                let mut entry = self.entries.remove(i);
                let ghost ov = entry.versions@;
                let mut first = entry.versions.remove(0);
                first.crypt = Some(info);
                entry.versions.insert(0, first);
                assert(versions_view(entry.versions@) =~= versions_view(ov).update(
                    0,
                    (ov[0]@.0, ov[0]@.1, Some(info)),
                ));
                self.entries.insert(i, entry);
                assert(self.entries@ =~= old_self.entries@.update(i as int, entry));
                proof {
                    assert(entry.tag == old_self.entries@[i as int].tag);
                    assert forall|a: int| 0 <= a < self.entries@.len() implies #[trigger] self.entries@[a].tag@
                        == old_self.entries@[a].tag@ by {}
                    assert forall|a: int| 0 <= a < self.entries@.len() implies #[trigger] self.entries@[a].versions@.len() > 0
                        && descending(versions_view(self.entries@[a].versions@)) by {
                        if a != i {
                            assert(self.entries@[a] == old_self.entries@[a]);
                        } else {
                            let w = versions_view(entry.versions@);
                            let v = versions_view(ov);
                            assert forall|x: int, y: int| 0 <= x < y < w.len() implies name_lt(#[trigger] w[y].0, #[trigger] w[x].0) by {
                                assert(w[y].0 == v[y].0);
                                assert(w[x].0 == v[x].0);
                            }
                        }
                    }
                    assert(self.wf());
                    self.lemma_view_at(i as int);
                    assert forall|t: Seq<char>| #[trigger] self.has_tag(t) == old_self.has_tag(t) by {
                        if old_self.has_tag(t) {
                            let k = old_self.tag_index(t);
                            assert(self.entries@[k].tag@ == t);
                        }
                        if self.has_tag(t) {
                            let k = self.tag_index(t);
                            assert(old_self.entries@[k].tag@ == t);
                        }
                    }
                    assert forall|t: Seq<char>| self.has_tag(t) && t != tag@ implies self@[t] == old_self@[t] by {
                        let k = old_self.tag_index(t);
                        old_self.lemma_view_at(k);
                        self.lemma_view_at(k);
                    }
                }
                assert(self@ =~= mark_one(old_self@, tag@, info));
                true
            },
            None => {
                false
            },
        }
    }

    /// The tags whose most recent version has no encryption record, each
    /// with that version, every such tag once.
    pub fn pending_crypt(&self) -> (r: Vec<(String, RepositoryFile)>)
        requires
            self.wf(),
        ensures
            forall|k: int|
                0 <= k < r@.len() ==> is_pending(self@, (#[trigger] r@[k]).0@) && r@[k].1@ == self@[r@[k].0@][0],
            forall|t: Seq<char>| is_pending(self@, t) ==> exists|k: int| 0 <= k < r@.len() && (#[trigger] r@[k]).0@ == t,
            forall|k1: int, k2: int|
                0 <= k1 < r@.len() && 0 <= k2 < r@.len() && k1 != k2 ==> (#[trigger] r@[k1]).0@ != (#[trigger] r@[k2]).0@,
    {
        let mut out: Vec<(String, RepositoryFile)> = Vec::new();
        let ghost mut idx: Seq<int> = Seq::empty();
        let mut i: usize = 0;
        while i < self.entries.len()
            invariant
                self.wf(),
                i <= self.entries@.len(),
                idx.len() == out@.len(),
                forall|k: int| 0 <= k < idx.len() ==> 0 <= #[trigger] idx[k] < i,
                forall|k1: int, k2: int| 0 <= k1 < k2 < idx.len() ==> #[trigger] idx[k1] < #[trigger] idx[k2],
                forall|k: int|
                    0 <= k < out@.len() ==> (#[trigger] out@[k]).0@ == self.entries@[idx[k]].tag@
                        && out@[k].1@ == self.entries@[idx[k]].versions@[0]@
                        && self.entries@[idx[k]].versions@[0].crypt is None,
                forall|j: int|
                    0 <= j < i && (#[trigger] self.entries@[j]).versions@[0].crypt is None ==> exists|k: int|
                        0 <= k < idx.len() && idx[k] == j,
            decreases self.entries@.len() - i,
        {
            let entry = &self.entries[i];
            assert(entry.versions@.len() > 0);
            if entry.versions[0].crypt.is_none() {
                let tag = entry.tag.clone();
                let file = entry.versions[0].duplicate();
                out.push((tag, file));
                proof {
                    let old_idx = idx;
                    idx = idx.push(i as int);
                    assert(idx[idx.len() - 1] == i);
                    assert forall|j: int|
                        0 <= j < i + 1 && (#[trigger] self.entries@[j]).versions@[0].crypt is None implies exists|k: int|
                            0 <= k < idx.len() && idx[k] == j by {
                        if j < i {
                            let k = choose|k: int| 0 <= k < old_idx.len() && old_idx[k] == j;
                            assert(idx[k] == j);
                        } else {
                            assert(idx[idx.len() - 1] == j);
                        }
                    }
                }
            }
            i = i + 1;
        }
        proof {
            assert forall|k: int| 0 <= k < out@.len() implies is_pending(self@, (#[trigger] out@[k]).0@)
                && out@[k].1@ == self@[out@[k].0@][0] by {
                self.lemma_view_at(idx[k]);
                assert(versions_view(self.entries@[idx[k]].versions@)[0] == self.entries@[idx[k]].versions@[0]@);
            }
            assert forall|t: Seq<char>| is_pending(self@, t) implies exists|k: int| 0 <= k < out@.len() && (#[trigger] out@[k]).0@ == t by {
                let j = self.tag_index(t);
                self.lemma_view_at(j);
                assert(versions_view(self.entries@[j].versions@)[0] == self.entries@[j].versions@[0]@);
                assert(self.entries@[j].versions@[0].crypt is None);
                let k = choose|k: int| 0 <= k < idx.len() && idx[k] == j;
                assert(out@[k].0@ == t);
            }
            assert forall|k1: int, k2: int| 0 <= k1 < out@.len() && 0 <= k2 < out@.len() && k1 != k2 implies (#[trigger] out@[k1]).0@ != (#[trigger] out@[k2]).0@ by {
                assert(idx[k1] != idx[k2]);
            }
        }
        out
    }

    /// Records the versions that ingestion archived, in order.
    pub fn fold_inbox(&mut self, processed: &Vec<(String, RepositoryFile)>)
        requires
            old(self).wf(),
        ensures
            final(self).wf(),
            final(self)@ == insert_all(old(self)@, processed@.map_values(|p: (String, RepositoryFile)| (p.0@, p.1@))),
    {
        let ghost items = processed@.map_values(|p: (String, RepositoryFile)| (p.0@, p.1@));
        let ghost start = self@;
        let mut i: usize = 0;
        while i < processed.len()
            invariant
                self.wf(),
                i <= processed@.len(),
                items == processed@.map_values(|p: (String, RepositoryFile)| (p.0@, p.1@)),
                self@ == insert_all(start, items.take(i as int)),
            decreases processed@.len() - i,
        {
            let item = &processed[i];
            self.insert_version(item.0.as_str(), item.1.duplicate());
            assert(items.take(i + 1).drop_last() =~= items.take(i as int));
            i = i + 1;
        }
        assert(items.take(i as int) =~= items);
    }

    /// Gives each listed tag's most recent version its encryption record,
    /// in order.
    pub fn fold_crypt(&mut self, marks: &Vec<(String, CryptInfo)>)
        requires
            old(self).wf(),
        ensures
            final(self).wf(),
            final(self)@ == mark_all(old(self)@, marks@.map_values(|p: (String, CryptInfo)| (p.0@, p.1))),
    {
        let ghost items = marks@.map_values(|p: (String, CryptInfo)| (p.0@, p.1));
        let ghost start = self@;
        let mut i: usize = 0;
        while i < marks.len()
            invariant
                self.wf(),
                i <= marks@.len(),
                items == marks@.map_values(|p: (String, CryptInfo)| (p.0@, p.1)),
                self@ == mark_all(start, items.take(i as int)),
            decreases marks@.len() - i,
        {
            let item = &marks[i];
            self.mark_latest_encrypted(item.0.as_str(), item.1);
            assert(items.take(i + 1).drop_last() =~= items.take(i as int));
            i = i + 1;
        }
        assert(items.take(i as int) =~= items);
    }

    /// Adds a version read from a stored ledger. A version whose encryption
    /// record has a fragment size of zero is refused and nothing changes.
    pub fn load_version(&mut self, tag: &str, file: RepositoryFile) -> (r: Result<(), LoadError>)
        requires
            old(self).wf(),
        ensures
            final(self).wf(),
            r is Err <==> (file.crypt matches Some(i) && i.fragment_size == 0),
            r is Err ==> r == Err::<(), LoadError>(LoadError::ZeroFragmentSize) && final(self)@ == old(self)@,
            r is Ok ==> final(self)@ == insert_one(old(self)@, tag@, file@),
    {
        if let Some(info) = file.crypt {
            if info.fragment_size == 0 {
                return Err(LoadError::ZeroFragmentSize);
            }
        }
        self.insert_version(tag, file);
        Ok(())
    }
}

/// Why a stored ledger cannot be loaded.
#[derive(Debug, Clone, Copy, PartialEq, Eq)]
pub enum LoadError {
    /// It was written under another schema version.
    UnsupportedVersion,
    /// An encryption record gives a fragment size of zero.
    ZeroFragmentSize,
}

/// Checks that a stored ledger's schema version is the one of this release.
pub fn check_schema_version(version: u32) -> (r: Result<(), LoadError>)
    ensures
        r is Ok <==> version == CONFIG_VERSION,
        r is Err ==> r == Err::<(), LoadError>(LoadError::UnsupportedVersion),
{
    if version == CONFIG_VERSION {
        Ok(())
    } else {
        Err(LoadError::UnsupportedVersion)
    }
}

/// Ingesting one version under a tag that the ledger lacks gives that tag
/// exactly this one version and leaves every other tag as it was.
pub proof fn lemma_ingest_into_new_tag(m: Map<Seq<char>, Seq<FileView>>, t: Seq<char>, f: FileView)
    requires
        !m.contains_key(t),
    ensures
        insert_all(m, seq![(t, f)]) == m.insert(t, seq![f]),
        insert_all(m, seq![(t, f)])[t] == seq![f],
        forall|u: Seq<char>| u != t ==> (#[trigger] insert_all(m, seq![(t, f)]).contains_key(u)) == m.contains_key(u),
        forall|u: Seq<char>| u != t && m.contains_key(u) ==> #[trigger] insert_all(m, seq![(t, f)])[u] == m[u],
{
    let items = seq![(t, f)];
    assert(items.drop_last() =~= Seq::<(Seq<char>, FileView)>::empty());
    assert(insert_all(m, items.drop_last()) == m);
    assert(items.last() == (t, f));
    assert(insert_all(m, items) == insert_one(m, t, f));
}

/// A run in which no file passed verification has no outcome to record,
/// and recording no outcome leaves the ledger as it was.
pub proof fn lemma_no_outcome_keeps_ledger(m: Map<Seq<char>, Seq<FileView>>)
    ensures
        insert_all(m, Seq::<(Seq<char>, FileView)>::empty()) == m,
{
}

/// A tag whose most recent version carries no encryption record.
pub open spec fn is_pending(m: Map<Seq<char>, Seq<FileView>>, t: Seq<char>) -> bool {
    m.contains_key(t) && m[t].len() > 0 && m[t][0].2 is None
}

/// The ledger after one ingested version: see [`Repository::insert_version`].
pub open spec fn insert_one(m: Map<Seq<char>, Seq<FileView>>, t: Seq<char>, f: FileView) -> Map<
    Seq<char>,
    Seq<FileView>,
> {
    m.insert(
        t,
        if m.contains_key(t) {
            insert_desc(m[t], f)
        } else {
            seq![f]
        },
    )
}

/// The ledger after ingested versions, recorded in order.
pub open spec fn insert_all(m: Map<Seq<char>, Seq<FileView>>, items: Seq<(Seq<char>, FileView)>) -> Map<
    Seq<char>,
    Seq<FileView>,
>
    decreases items.len(),
{
    if items.len() == 0 {
        m
    } else {
        insert_one(insert_all(m, items.drop_last()), items.last().0, items.last().1)
    }
}

/// The ledger after the most recent version of `t` got the record `info`.
pub open spec fn mark_one(m: Map<Seq<char>, Seq<FileView>>, t: Seq<char>, info: CryptInfo) -> Map<
    Seq<char>,
    Seq<FileView>,
> {
    if m.contains_key(t) && m[t].len() > 0 {
        m.insert(t, m[t].update(0, (m[t][0].0, m[t][0].1, Some(info))))
    } else {
        m
    }
}

/// The ledger after records for several tags, applied in order.
pub open spec fn mark_all(m: Map<Seq<char>, Seq<FileView>>, marks: Seq<(Seq<char>, CryptInfo)>) -> Map<
    Seq<char>,
    Seq<FileView>,
>
    decreases marks.len(),
{
    if marks.len() == 0 {
        m
    } else {
        mark_one(mark_all(m, marks.drop_last()), marks.last().0, marks.last().1)
    }
}

proof fn lemma_mark_all_pending(m: Map<Seq<char>, Seq<FileView>>, marks: Seq<(Seq<char>, CryptInfo)>)
    ensures
        forall|t: Seq<char>|
            #[trigger] is_pending(mark_all(m, marks), t) ==> is_pending(m, t) && forall|k: int|
                0 <= k < marks.len() ==> (#[trigger] marks[k]).0 != t,
    decreases marks.len(),
{
    if marks.len() > 0 {
        let prev = marks.drop_last();
        lemma_mark_all_pending(m, prev);
        assert forall|t: Seq<char>| #[trigger] is_pending(mark_all(m, marks), t) implies is_pending(m, t)
            && forall|k: int| 0 <= k < marks.len() ==> (#[trigger] marks[k]).0 != t by {
            let mm = mark_all(m, prev);
            assert(is_pending(mm, t));
            assert forall|k: int| 0 <= k < marks.len() implies (#[trigger] marks[k]).0 != t by {
                if k < marks.len() - 1 {
                    assert(marks[k] == prev[k]);
                }
            }
        }
    }
}

/// Once every tag selected for encryption has been given a record, no tag
/// is selected any more: a second crypt run with nothing ingested in
/// between has no work.
pub proof fn lemma_marked_ledger_has_no_pending(
    m: Map<Seq<char>, Seq<FileView>>,
    marks: Seq<(Seq<char>, CryptInfo)>,
)
    requires
        forall|t: Seq<char>| is_pending(m, t) ==> exists|k: int| 0 <= k < marks.len() && (#[trigger] marks[k]).0 == t,
    ensures
        forall|t: Seq<char>| !is_pending(#[trigger] mark_all(m, marks), t),
{
    lemma_mark_all_pending(m, marks);
    assert forall|t: Seq<char>| !is_pending(#[trigger] mark_all(m, marks), t) by {
        if is_pending(mark_all(m, marks), t) {
            assert(is_pending(m, t));
            let k = choose|k: int| 0 <= k < marks.len() && (#[trigger] marks[k]).0 == t;
            assert(marks[k].0 != t);
        }
    }
}

/// Ingestion never removes a version nor changes one: every version that a
/// tag had, with its encryption record, is still there afterwards.
pub proof fn lemma_ingestion_keeps_versions(
    m: Map<Seq<char>, Seq<FileView>>,
    tag: Seq<char>,
    f: FileView,
    t: Seq<char>,
    i: int,
)
    requires
        m.contains_key(t),
        0 <= i < m[t].len(),
    ensures
        insert_one(m, tag, f).contains_key(t),
        insert_one(m, tag, f)[t].contains(m[t][i]),
{
    let after = insert_one(m, tag, f);
    if t == tag && !has_name(m[t], f.0) {
        let p = desc_position(m[t], f.0);
        lemma_desc_position_bounds(m[t], f.0);
        let w = m[t].insert(p, f);
        if i < p {
            assert(w[i] == m[t][i]);
        } else {
            assert(w[i + 1] == m[t][i]);
        }
    } else {
        assert(after[t][i] == m[t][i]);
    }
}

proof fn lemma_desc_position_bounds(vs: Seq<FileView>, n: Seq<char>)
    ensures
        0 <= desc_position(vs, n) <= vs.len(),
    decreases vs.len(),
{
    if vs.len() > 0 && !name_lt(vs[0].0, n) {
        lemma_desc_position_bounds(vs.drop_first(), n);
    }
}

/// Adds `file` to a descending list of versions in its place, unless its
/// stored name is already there.
fn insert_into_versions(vs: &mut Vec<RepositoryFile>, file: RepositoryFile)
    requires
        descending(versions_view(old(vs)@)),
    ensures
        versions_view(final(vs)@) == insert_desc(versions_view(old(vs)@), file@),
        descending(versions_view(final(vs)@)),
        final(vs)@.len() >= old(vs)@.len(),
        final(vs)@.len() > 0,
{
    let ghost v = versions_view(vs@);
    let ghost n = file@.0;
    let mut p: usize = 0;
    assert(v.skip(0) =~= v);
    while p < vs.len() && !str_lt(vs[p].name.as_str(), file.name.as_str())
        invariant
            v == versions_view(vs@),
            v == versions_view(old(vs)@),
            n == file@.0,
            descending(v),
            p <= vs@.len(),
            forall|j: int| 0 <= j < p ==> name_lt(n, #[trigger] v[j].0),
            desc_position(v, n) == p + desc_position(v.skip(p as int), n),
        decreases vs@.len() - p,
    {
        assert(v[p as int].0 == vs@[p as int].name@);
        if crate::util::str_eq(vs[p].name.as_str(), file.name.as_str()) {
            assert(has_name(v, n));
            assert(vs@.len() > 0);
            return;
        }
        proof {
            lemma_name_lt_total(n, v[p as int].0);
            assert(v.skip(p as int).drop_first() =~= v.skip(p + 1));
        }
        p = p + 1;
    }
    proof {
        assert(desc_position(v.skip(p as int), n) == 0);
        if p < v.len() {
            assert(v[p as int].0 == vs@[p as int].name@);
        }
        assert forall|k: int| p <= k < v.len() implies name_lt(#[trigger] v[k].0, n) by {
            if k > p {
                lemma_name_lt_transitive(v[k].0, v[p as int].0, n);
            }
        }
        assert forall|j: int| 0 <= j < v.len() implies #[trigger] v[j].0 != n by {
            lemma_name_lt_irreflexive(n);
            if j >= p {
                assert(name_lt(v[j].0, n));
            }
        }
        assert(!has_name(v, n));
    }
    let ghost fv = file@;
    vs.insert(p, file);
    assert(versions_view(vs@) =~= v.insert(p as int, fv));
    proof {
        let w = v.insert(p as int, fv);
        assert forall|i: int, j: int| 0 <= i < j < w.len() implies name_lt(#[trigger] w[j].0, #[trigger] w[i].0) by {
            if j > p {
                assert(w[j] == v[j - 1]);
                assert(name_lt(v[j - 1].0, n));
            }
        }
    }
}

/// The local time now, as text.
///
/// Relies on chrono's `Local::now` and its `Display`; nothing is known of
/// the text, which depends on the clock and the machine's time zone.
#[verifier::external_body]
fn local_now_text() -> String {
    chrono::Local::now().to_string()
}

/// Schema version and time of the last change.
pub struct System {
    pub version: u32,
    pub updated: String,
}

impl System {
    /// A record of the current schema, changed at `now`.
    pub fn new_at(now: String) -> (r: System)
        ensures
            r.version == CONFIG_VERSION,
            r.updated@ == now@,
    {
        System { version: CONFIG_VERSION, updated: now }
    }

    /// Records a change made at `now`.
    pub fn touch_at(&mut self, now: String)
        ensures
            final(self).version == old(self).version,
            final(self).updated@ == now@,
    {
        self.updated = now;
    }

    /// Records a change made now.
    pub fn update(&mut self)
        ensures
            final(self).version == old(self).version,
    {
        let now = local_now_text();
        self.touch_at(now);
    }
}

impl Default for System {
    fn default() -> (r: System)
        ensures
            r.version == CONFIG_VERSION,
    {
        System::new_at(local_now_text())
    }
}

/// The whole ledger.
pub struct Config {
    pub system: System,
    pub crypt: CryptType,
    pub repository: Repository,
}

impl Config {
    pub open spec fn wf(&self) -> bool {
        self.repository.wf()
    }

    /// A fresh ledger: current schema, no encryption, no tags.
    pub fn new_at(now: String) -> (r: Config)
        ensures
            r.wf(),
            r.system.version == CONFIG_VERSION,
            r.system.updated@ == now@,
            r.crypt == CryptType::PlainText,
            r.repository@ == Map::<Seq<char>, Seq<FileView>>::empty(),
    {
        Config { system: System::new_at(now), crypt: CryptType::PlainText, repository: Repository::new() }
    }
}

/// How a policy is shown to the operator.
pub open spec fn crypt_type_text(c: CryptType) -> Seq<char> {
    match c {
        CryptType::PlainText => "PlainText (no encryption)"@,
        CryptType::Aes256GcmArgon2 { key, param } => "AES key derived from passphrase by Argon2\n"@
            + "salt  : "@ + hex_text(param.salt@) + "\n"@ + "m_cost: "@ + decimal_text(
            param.m_cost as nat,
        ) + "\n"@ + "t_cost: "@ + decimal_text(param.t_cost as nat) + "\n"@ + "p_cost: "@
            + decimal_text(param.p_cost as nat) + "\n"@ + if key is Some {
            "key   : LOADED (held in memory only)"@
        } else {
            "key   : NODATA (passphrase needed)"@
        },
    }
}

impl CryptType {
    /// How the policy is shown to the operator: its kind, and for
    /// AES-256-GCM the Argon2 salt and costs and whether a key is loaded.
    pub fn describe(&self) -> (r: String)
        ensures
            r@ == crypt_type_text(*self),
    {
        match self {
            CryptType::PlainText => "PlainText (no encryption)".to_owned(),
            CryptType::Aes256GcmArgon2 { key, param } => {
                let mut out = String::new();
                out.append("AES key derived from passphrase by Argon2\n");
                out.append("salt  : ");
                let salt = bytes_to_hex(param.salt.as_slice());
                out.append(salt.as_str());
                out.append("\n");
                out.append("m_cost: ");
                push_decimal(&mut out, param.m_cost as u128);
                out.append("\n");
                out.append("t_cost: ");
                push_decimal(&mut out, param.t_cost as u128);
                out.append("\n");
                out.append("p_cost: ");
                push_decimal(&mut out, param.p_cost as u128);
                out.append("\n");
                if key.is_some() {
                    out.append("key   : LOADED (held in memory only)");
                } else {
                    out.append("key   : NODATA (passphrase needed)");
                }
                assert(out@ =~= crypt_type_text(*self));
                out
            },
        }
    }

    /// The same policy with no key: what metadata keeps.
    pub open spec fn spec_without_key(self) -> CryptType {
        match self {
            CryptType::PlainText => CryptType::PlainText,
            CryptType::Aes256GcmArgon2 { param, .. } => CryptType::Aes256GcmArgon2 { key: None, param },
        }
    }

    /// The same policy with no key: what metadata keeps.
    #[verifier::when_used_as_spec(spec_without_key)]
    pub fn without_key(self) -> (r: CryptType)
        ensures
            r == self.spec_without_key(),
    {
        match self {
            CryptType::PlainText => CryptType::PlainText,
            CryptType::Aes256GcmArgon2 { param, .. } => CryptType::Aes256GcmArgon2 { key: None, param },
        }
    }

    /// The policy with its key derived from `pwd` and the stored
    /// parameters; `PlainText` needs no key and is returned as it is.
    pub fn unlock(self, pwd: &str) -> (r: Result<CryptType, CryptoError>)
        ensures
            self == CryptType::PlainText ==> r == Ok::<CryptType, CryptoError>(self),
            self matches CryptType::Aes256GcmArgon2 { param, .. } ==> {
                &&& r is Ok <==> argon2_accepts(param.m_cost, param.t_cost, param.p_cost, pwd.spec_bytes().len())
                &&& r is Err ==> r == Err::<CryptType, CryptoError>(CryptoError::InvalidKdfParams)
                &&& r is Ok ==> (r->Ok_0 matches CryptType::Aes256GcmArgon2 { key: Some(k), param: kept }
                    && kept == param && k@ == argon2id_key(pwd@, param.salt@, param.m_cost, param.t_cost, param.p_cost))
            },
    {
        match self {
            CryptType::PlainText => Ok(self),
            CryptType::Aes256GcmArgon2 { param, .. } => {
                match aeskey_from_password(param.salt, param.m_cost, param.t_cost, param.p_cost, pwd) {
                    Ok(key) => Ok(CryptType::Aes256GcmArgon2 { key: Some(key), param }),
                    Err(e) => Err(e),
                }
            },
        }
    }
}

} // verus!
