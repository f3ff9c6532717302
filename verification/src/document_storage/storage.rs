//! In-memory document storage with version control.

use vstd::prelude::*;
use crate::utils::ids::{id_to_string, new_id, uuid_text};
use crate::utils::keyed::{
    has_key, key_pos, keys_distinct, lemma_to_map_at, lemma_to_map_empty, lemma_to_map_push,
    lemma_to_map_remove, lemma_to_map_update, lemma_upsert, to_map, upsert,
};
use crate::utils::text::{
    contains_seq, decimal, occurs_at, str_contains, str_eq, str_to_lowercase, string_of,
    u32_to_decimal,
    unicode_lowercase,
};
use super::metadata::{AccessLevel, DocumentMetadata, MetadataView};
use super::version::{made_version, DocumentVersion, VersionInfo};

verus! {

/// Error types for document storage operations
#[derive(Debug)]
pub enum DocumentStorageError {
    NotFound(u128),
    VersionNotFound(u32),
    AccessDenied,
    DocumentArchived,
    StorageError(String),
    InvalidOperation(String),
}

/// The text that describes a storage error.
pub open spec fn storage_error_text(e: DocumentStorageError) -> Seq<char> {
    match e {
        DocumentStorageError::NotFound(id) => "Document not found: "@ + uuid_text(id),
        DocumentStorageError::VersionNotFound(n) => "Version not found: "@ + decimal(n as nat),
        DocumentStorageError::AccessDenied => "Access denied"@,
        DocumentStorageError::DocumentArchived => "Document is archived"@,
        DocumentStorageError::StorageError(s) => "Storage error: "@ + s@,
        DocumentStorageError::InvalidOperation(s) => "Invalid operation: "@ + s@,
    }
}

impl DocumentStorageError {
    /// The text that describes this error.
    pub fn message(&self) -> (r: String)
        ensures
            r@ == storage_error_text(*self),
    {
        match self {
            DocumentStorageError::NotFound(id) => {
                let mut r = string_of("Document not found: ");
                let t = id_to_string(*id);
                r.append(t.as_str());
                r
            },
            DocumentStorageError::VersionNotFound(n) => {
                let mut r = string_of("Version not found: ");
                let t = u32_to_decimal(*n);
                r.append(t.as_str());
                r
            },
            DocumentStorageError::AccessDenied => string_of("Access denied"),
            DocumentStorageError::DocumentArchived => string_of("Document is archived"),
            DocumentStorageError::StorageError(s) => {
                let mut r = string_of("Storage error: ");
                r.append(s.as_str());
                r
            },
            DocumentStorageError::InvalidOperation(s) => {
                let mut r = string_of("Invalid operation: ");
                r.append(s.as_str());
                r
            },
        }
    }
}

/// The versions of one document, oldest first.
#[derive(Debug)]
struct VersionList {
    doc_id: u128,
    versions: Vec<DocumentVersion>,
}

/// Key of document metadata: the document's identifier.
pub open spec fn doc_key() -> spec_fn(MetadataView) -> u128 {
    |m: MetadataView| m.id
}

/// Value of document metadata: the metadata itself.
pub open spec fn doc_val() -> spec_fn(MetadataView) -> MetadataView {
    |m: MetadataView| m
}

/// The view of document metadata, as a function.
pub open spec fn meta_view() -> spec_fn(DocumentMetadata) -> MetadataView {
    |m: DocumentMetadata| m@
}

spec fn list_key() -> spec_fn(VersionList) -> u128 {
    |e: VersionList| e.doc_id
}

spec fn list_val() -> spec_fn(VersionList) -> Seq<DocumentVersion> {
    |e: VersionList| e.versions@
}

/// Holds of documents that are not archived.
pub open spec fn active_doc() -> spec_fn(MetadataView) -> bool {
    |m: MetadataView| !m.archived
}

/// Whether active document `m` matches the lowercased query `q`: its
/// lowercased title, one of its lowercased tags, or its lowercased
/// description contains `q`.
pub open spec fn matches_query(m: MetadataView, q: Seq<char>) -> bool {
    &&& !m.archived
    &&& {
        ||| contains_seq(unicode_lowercase(m.title), q)
        ||| exists|i: int|
            0 <= i < m.tags.len() && contains_seq(unicode_lowercase(#[trigger] m.tags[i]), q)
        ||| (m.description matches Some(d) && contains_seq(unicode_lowercase(d), q))
    }
}

/// Holds of documents that match the lowercased query `q`.
pub open spec fn query_matcher(q: Seq<char>) -> spec_fn(MetadataView) -> bool {
    |m: MetadataView| matches_query(m, q)
}

/// Result of comparing two document versions
#[derive(Debug)]
pub struct VersionComparison {
    pub version_a: VersionInfo,
    pub version_b: VersionInfo,
    pub content_changed: bool,
    pub hash_changed: bool,
}

/// The metadata of a newly created document: titled `title`, created and
/// last modified by `by`, at version 1, active, private, untagged and
/// without description.
pub open spec fn created_metadata(m: MetadataView, title: Seq<char>, by: Seq<char>) -> bool {
    &&& m.title == title
    &&& m.description is None
    &&& m.tags == Seq::<Seq<char>>::empty()
    &&& m.created_by == by
    &&& m.modified_by == by
    &&& m.current_version == 1
    &&& !m.archived
    &&& m.access_level == AccessLevel::Private
}

/// In-memory document storage with version control
/// In production, this would be backed by a file system or database
#[derive(Debug)]
pub struct DocumentStorage {
    documents: Vec<DocumentMetadata>,
    versions: Vec<VersionList>,
    storage_path: String,
}

impl DocumentStorage {
    /// The documents' metadata, in the order in which they were created.
    pub closed spec fn doc_views(&self) -> Seq<MetadataView> {
        self.documents@.map_values(meta_view())
    }

    /// The documents' metadata by identifier.
    pub open spec fn documents(&self) -> Map<u128, MetadataView> {
        to_map(self.doc_views(), doc_key(), doc_val())
    }

    /// The versions of each document, oldest first (version `n` at index
    /// `n - 1`).
    pub closed spec fn versions(&self) -> Map<u128, Seq<DocumentVersion>> {
        to_map(self.versions@, list_key(), list_val())
    }

    /// The versions of `id`, or none.
    pub open spec fn versions_of(&self, id: u128) -> Seq<DocumentVersion> {
        if self.versions().contains_key(id) {
            self.versions()[id]
        } else {
            seq![]
        }
    }

    /// The storage path.
    pub closed spec fn path(&self) -> Seq<char> {
        self.storage_path@
    }

    /// Well-formedness: no identifier twice among documents or version
    /// lists, and every document is at version 1 or later.
    pub closed spec fn wf(&self) -> bool {
        &&& keys_distinct(self.doc_views(), doc_key())
        &&& keys_distinct(self.versions@, list_key())
        &&& forall|i: int|
            0 <= i < self.doc_views().len() ==> (#[trigger] self.doc_views()[i]).current_version
                >= 1
    }

    /// Every stored document is at version 1 or later.
    pub proof fn lemma_versions_start_at_one(&self, id: u128)
        requires
            self.wf(),
            self.documents().contains_key(id),
        ensures
            self.documents()[id].current_version >= 1,
    {
        let i = choose|i: int| 0 <= i < self.doc_views().len() && #[trigger] doc_key()(self.doc_views()[i]) == id;
        lemma_to_map_at(self.doc_views(), doc_key(), doc_val(), i);
    }

    /// Create a new document storage instance
    ///
    /// The path defaults to `./documents`.
    pub fn new(storage_path: Option<String>) -> (r: Self)
        ensures
            r.wf(),
            r.doc_views() == Seq::<MetadataView>::empty(),
            r.versions() == Map::<u128, Seq<DocumentVersion>>::empty(),
            storage_path matches Some(p) ==> r.path() == p@,
            storage_path is None ==> r.path() == "./documents"@,
    {
        let storage_path = match storage_path {
            Some(p) => p,
            None => string_of("./documents"),
        };
        let r = Self { documents: Vec::new(), versions: Vec::new(), storage_path };
        proof {
            assert(r.doc_views() =~= Seq::<MetadataView>::empty());
            lemma_to_map_empty(list_key(), list_val());
            assert(r.versions@ =~= Seq::<VersionList>::empty());
        }
        r
    }

    fn find_doc(&self, id: u128) -> (r: Option<usize>)
        requires
            self.wf(),
        ensures
            match r {
                Some(i) => {
                    &&& i < self.documents@.len()
                    &&& self.documents().contains_key(id)
                    &&& self.documents()[id] == self.documents@[i as int]@
                    &&& key_pos(self.doc_views(), doc_key(), id) == i
                },
                None => !self.documents().contains_key(id),
            },
    {
        let mut i: usize = 0;
        while i < self.documents.len()
            invariant
                self.wf(),
                i <= self.documents@.len(),
                forall|k: int| 0 <= k < i ==> self.doc_views()[k].id != id,
            decreases self.documents@.len() - i,
        {
            if self.documents[i].id == id {
                proof {
                    lemma_to_map_at(self.doc_views(), doc_key(), doc_val(), i as int);
                }
                return Some(i);
            }
            i = i + 1;
        }
        assert forall|k: int| 0 <= k < self.doc_views().len() implies #[trigger] doc_key()(
            self.doc_views()[k],
        ) != id by {}
        None
    }

    fn find_versions(&self, id: u128) -> (r: Option<usize>)
        requires
            self.wf(),
        ensures
            match r {
                Some(i) => {
                    &&& i < self.versions@.len()
                    &&& self.versions@[i as int].doc_id == id
                    &&& self.versions().contains_key(id)
                    &&& self.versions()[id] == self.versions@[i as int].versions@
                },
                None => !self.versions().contains_key(id),
            },
    {
        let mut i: usize = 0;
        while i < self.versions.len()
            invariant
                self.wf(),
                i <= self.versions@.len(),
                forall|k: int| 0 <= k < i ==> self.versions@[k].doc_id != id,
            decreases self.versions@.len() - i,
        {
            if self.versions[i].doc_id == id {
                proof {
                    lemma_to_map_at(self.versions@, list_key(), list_val(), i as int);
                }
                return Some(i);
            }
            i = i + 1;
        }
        assert forall|k: int| 0 <= k < self.versions@.len() implies #[trigger] list_key()(
            self.versions@[k],
        ) != id by {}
        None
    }

    /// Stores `m` in place of the metadata with its identifier, or appends it.
    fn upsert_doc(&mut self, m: DocumentMetadata)
        requires
            old(self).wf(),
            m.current_version >= 1,
        ensures
            final(self).wf(),
            final(self).doc_views() == upsert(old(self).doc_views(), doc_key(), m@),
            final(self).documents() == old(self).documents().insert(m.id, m@),
            final(self).versions() == old(self).versions(),
            final(self).path() == old(self).path(),
    {
        let ghost mv = m@;
        proof {
            lemma_upsert(self.doc_views(), doc_key(), doc_val(), mv);
        }
        match self.find_doc(m.id) {
            Some(i) => {
                self.documents.set(i, m);
                assert(self.doc_views() =~= old(self).doc_views().update(i as int, mv));
            },
            None => {
                assert(!has_key(old(self).doc_views(), doc_key(), mv.id));
                self.documents.push(m);
                assert(self.doc_views() =~= old(self).doc_views().push(mv));
            },
        }
        assert forall|i: int| 0 <= i < self.doc_views().len() implies (#[trigger] self.doc_views()[i]).current_version >= 1 by {
            if i < old(self).doc_views().len() {
                assert(old(self).doc_views()[i].current_version >= 1);
            }
        }
    }

    /// Appends `v` to the versions of `id`, starting a list if there is none.
    fn push_version(&mut self, id: u128, v: DocumentVersion)
        requires
            old(self).wf(),
        ensures
            final(self).wf(),
            final(self).versions() == old(self).versions().insert(id, old(self).versions_of(id).push(v)),
            final(self).doc_views() == old(self).doc_views(),
            final(self).path() == old(self).path(),
    {
        match self.find_versions(id) {
            Some(i) => {
                let ghost before = self.versions@;
                self.versions[i].versions.push(v);
                proof {
                    lemma_to_map_update(before, list_key(), list_val(), i as int, self.versions@[i as int]);
                    assert(self.versions@ == before.update(i as int, self.versions@[i as int]));
                }
            },
            None => {
                let mut list = Vec::new();
                list.push(v);
                let entry = VersionList { doc_id: id, versions: list };
                proof {
                    lemma_to_map_push(self.versions@, list_key(), list_val(), entry);
                    assert(entry.versions@ =~= Seq::<DocumentVersion>::empty().push(v));
                }
                self.versions.push(entry);
            },
        }
    }

    /// Create a new document with initial content
    ///
    /// The document gets a fresh identifier, metadata at version 1, and
    /// the initial content as its version 1.
    pub fn create_document(&mut self, title: String, created_by: String, initial_content: String) -> (r:
        Result<u128, DocumentStorageError>)
        requires
            old(self).wf(),
            vstd::utf8::encode_utf8(initial_content@).len() <= usize::MAX,
        ensures
            final(self).wf(),
            final(self).path() == old(self).path(),
            r matches Ok(id) && {
                &&& exists|m: MetadataView|
                    {
                        &&& m.id == id
                        &&& created_metadata(m, title@, created_by@)
                        &&& final(self).doc_views() == upsert(old(self).doc_views(), doc_key(), m)
                    }
                &&& exists|v: DocumentVersion|
                    {
                        &&& made_version(v, 1, created_by, initial_content)
                        &&& final(self).versions() == old(self).versions().insert(
                            id,
                            old(self).versions_of(id).push(v),
                        )
                    }
            },
    {
        let doc_id = new_id();
        let mut metadata = DocumentMetadata::new(doc_id, title, created_by.clone());
        metadata.increment_version();
        let ghost mv = metadata@;
        let version = DocumentVersion::new(1, created_by, initial_content);
        let ghost vv = version;
        self.upsert_doc(metadata);
        self.push_version(doc_id, version);
        assert(created_metadata(mv, title@, created_by@));
        Ok(doc_id)
    }

    /// Get document metadata
    pub fn get_metadata(&self, doc_id: u128) -> (r: Result<DocumentMetadata, DocumentStorageError>)
        requires
            self.wf(),
        ensures
            self.documents().contains_key(doc_id) ==> (r matches Ok(m) && m@ == self.documents()[doc_id]),
            !self.documents().contains_key(doc_id) ==> (r is Err && r->Err_0 == DocumentStorageError::NotFound(doc_id)),
    {
        match self.find_doc(doc_id) {
            Some(i) => Ok(self.documents[i].clone()),
            None => Err(DocumentStorageError::NotFound(doc_id)),
        }
    }

    /// Get a specific version of a document
    ///
    /// Version `n` is the `n`-th version stored; the number must be at
    /// least 1 (the lookup computes `n - 1`, which underflows at 0).
    pub fn get_version(&self, doc_id: u128, version_number: u32) -> (r: Result<
        DocumentVersion,
        DocumentStorageError,
    >)
        requires
            self.wf(),
            version_number >= 1,
        ensures
            !self.versions().contains_key(doc_id) ==> (r is Err && r->Err_0 == DocumentStorageError::NotFound(doc_id)),
            self.versions().contains_key(doc_id) && version_number <= self.versions()[doc_id].len()
                ==> r == Ok::<DocumentVersion, DocumentStorageError>(
                self.versions()[doc_id][version_number - 1],
            ),
            self.versions().contains_key(doc_id) && version_number > self.versions()[doc_id].len()
                ==> (r is Err && r->Err_0 == DocumentStorageError::VersionNotFound(version_number)),
    {
        let i = match self.find_versions(doc_id) {
            Some(i) => i,
            None => {
                return Err(DocumentStorageError::NotFound(doc_id));
            },
        };
        let index = (version_number - 1) as usize;
        if index < self.versions[i].versions.len() {
            Ok(self.versions[i].versions[index].clone())
        } else {
            Err(DocumentStorageError::VersionNotFound(version_number))
        }
    }

    /// Get the latest version of a document
    pub fn get_latest_version(&self, doc_id: u128) -> (r: Result<
        DocumentVersion,
        DocumentStorageError,
    >)
        requires
            self.wf(),
        ensures
            !self.documents().contains_key(doc_id) ==> (r is Err && r->Err_0 == DocumentStorageError::NotFound(doc_id)),
            self.documents().contains_key(doc_id) ==> {
                let n = self.documents()[doc_id].current_version;
                &&& !self.versions().contains_key(doc_id) ==> (r is Err && r->Err_0 == DocumentStorageError::NotFound(doc_id))
                &&& self.versions().contains_key(doc_id) && n <= self.versions()[doc_id].len() ==> r
                    == Ok::<DocumentVersion, DocumentStorageError>(self.versions()[doc_id][n - 1])
                &&& self.versions().contains_key(doc_id) && n > self.versions()[doc_id].len() ==> (r is Err && r->Err_0 == DocumentStorageError::VersionNotFound(n))
            },
    {
        let metadata = self.get_metadata(doc_id)?;
        proof {
            self.lemma_versions_start_at_one(doc_id);
        }
        self.get_version(doc_id, metadata.current_version)
    }

    /// Update a document with new content
    ///
    /// An archived document cannot be updated. Otherwise the document moves
    /// to its next version number, last modified by `modified_by`, and the
    /// new content is stored as that version with the commit message.
    pub fn update_document(
        &mut self,
        doc_id: u128,
        modified_by: String,
        new_content: String,
        commit_message: Option<String>,
    ) -> (r: Result<u32, DocumentStorageError>)
        requires
            old(self).wf(),
            vstd::utf8::encode_utf8(new_content@).len() <= usize::MAX,
            old(self).documents().contains_key(doc_id) ==> old(self).documents()[doc_id].current_version
                < u32::MAX,
        ensures
            final(self).wf(),
            final(self).path() == old(self).path(),
            !old(self).documents().contains_key(doc_id) ==> {
                &&& (r is Err && r->Err_0 == DocumentStorageError::NotFound(doc_id))
                &&& final(self).doc_views() == old(self).doc_views()
                &&& final(self).versions() == old(self).versions()
            },
            old(self).documents().contains_key(doc_id) && old(self).documents()[doc_id].archived ==> {
                &&& r matches Err(DocumentStorageError::DocumentArchived)
                &&& final(self).doc_views() == old(self).doc_views()
                &&& final(self).versions() == old(self).versions()
            },
            r matches Ok(n) ==> update_step(*old(self), *final(self), doc_id, n, new_content),
            old(self).documents().contains_key(doc_id) && !old(self).documents()[doc_id].archived
                ==> {
                let old_meta = old(self).documents()[doc_id];
                let n = (old_meta.current_version + 1) as u32;
                &&& r == Ok::<u32, DocumentStorageError>(n)
                &&& final(self).documents().contains_key(doc_id)
                &&& final(self).documents()[doc_id] == (MetadataView {
                    current_version: n,
                    modified_by: modified_by@,
                    modified_at: final(self).documents()[doc_id].modified_at,
                    ..old_meta
                })
                &&& final(self).documents() == old(self).documents().insert(
                    doc_id,
                    final(self).documents()[doc_id],
                )
                &&& exists|v: DocumentVersion|
                    {
                        &&& made_version(
                            DocumentVersion {
                                info: VersionInfo { message: None, ..v.info },
                                ..v
                            },
                            n,
                            modified_by,
                            new_content,
                        )
                        &&& v.info.message == commit_message
                        &&& final(self).versions() == old(self).versions().insert(
                            doc_id,
                            old(self).versions_of(doc_id).push(v),
                        )
                    }
            },
    {
        let i = match self.find_doc(doc_id) {
            Some(i) => i,
            None => {
                return Err(DocumentStorageError::NotFound(doc_id));
            },
        };
        if !self.documents[i].is_active() {
            return Err(DocumentStorageError::DocumentArchived);
        }
        let ghost mb = modified_by;
        let ghost nc = new_content;
        let ghost cm = commit_message;
        let mut metadata = self.documents[i].clone();
        metadata.touch(modified_by.clone());
        metadata.increment_version();
        let new_version_number = metadata.current_version;
        self.upsert_doc(metadata);
        let mut version = DocumentVersion::new(new_version_number, modified_by, new_content);
        let ghost plain = version;
        match commit_message {
            Some(msg) => {
                version = version.with_message(msg);
            },
            None => {},
        }
        assert(plain == (DocumentVersion {
            info: VersionInfo { message: None, ..version.info },
            ..version
        }));
        let ghost vv = version;
        let ghost mid = self.documents();
        self.push_version(doc_id, version);
        assert(made_version(
            DocumentVersion { info: VersionInfo { message: None, ..vv.info }, ..vv },
            new_version_number,
            mb,
            nc,
        ));
        assert(vv.info.message == cm);
        assert(self.versions() == old(self).versions().insert(doc_id, old(self).versions_of(doc_id).push(vv)));
        assert(new_version_number == (old(self).documents()[doc_id].current_version + 1) as u32);
        assert(self.documents().contains_key(doc_id));
        assert(self.documents()[doc_id] == (MetadataView {
                    current_version: new_version_number,
                    modified_by: mb@,
                    modified_at: self.documents()[doc_id].modified_at,
                    ..old(self).documents()[doc_id]
                }));
        Ok(new_version_number)
    }

    /// Get all versions of a document
    pub fn get_all_versions(&self, doc_id: u128) -> (r: Result<
        Vec<DocumentVersion>,
        DocumentStorageError,
    >)
        requires
            self.wf(),
        ensures
            self.versions().contains_key(doc_id) ==> (r matches Ok(v) && v@ == self.versions()[doc_id]),
            !self.versions().contains_key(doc_id) ==> (r is Err && r->Err_0 == DocumentStorageError::NotFound(doc_id)),
    {
        match self.find_versions(doc_id) {
            Some(i) => {
                let list = &self.versions[i].versions;
                let mut out: Vec<DocumentVersion> = Vec::new();
                let mut k: usize = 0;
                while k < list.len()
                    invariant
                        k <= list@.len(),
                        out@ == list@.take(k as int),
                    decreases list@.len() - k,
                {
                    out.push(list[k].clone());
                    assert(out@ =~= list@.take(k + 1));
                    k = k + 1;
                }
                assert(list@.take(list@.len() as int) =~= list@);
                Ok(out)
            },
            None => Err(DocumentStorageError::NotFound(doc_id)),
        }
    }

    /// Compare two versions of a document
    ///
    /// Both version numbers must be at least 1; a lookup error for the
    /// first version is reported before one for the second.
    pub fn compare_versions(&self, doc_id: u128, version_a: u32, version_b: u32) -> (r: Result<
        VersionComparison,
        DocumentStorageError,
    >)
        requires
            self.wf(),
            version_a >= 1,
            version_b >= 1,
        ensures
            !self.versions().contains_key(doc_id) ==> (r is Err && r->Err_0 == DocumentStorageError::NotFound(doc_id)),
            self.versions().contains_key(doc_id) ==> {
                let vs = self.versions()[doc_id];
                &&& version_a > vs.len() ==> (r is Err && r->Err_0 == DocumentStorageError::VersionNotFound(version_a))
                &&& version_a <= vs.len() && version_b > vs.len() ==> (r is Err && r->Err_0 == DocumentStorageError::VersionNotFound(version_b))
                &&& version_a <= vs.len() && version_b <= vs.len() ==> (r matches Ok(c) && {
                    let a = vs[version_a - 1];
                    let b = vs[version_b - 1];
                    &&& c.version_a == a.info
                    &&& c.version_b == b.info
                    &&& c.content_changed == (a.content@ != b.content@)
                    &&& c.hash_changed == (a.info.content_hash@ != b.info.content_hash@)
                })
            },
    {
        let ver_a = self.get_version(doc_id, version_a)?;
        let ver_b = self.get_version(doc_id, version_b)?;
        let content_changed = !str_eq(ver_a.content.as_str(), ver_b.content.as_str());
        let hash_changed = !str_eq(ver_a.hash(), ver_b.hash());
        Ok(
            VersionComparison {
                version_a: ver_a.info,
                version_b: ver_b.info,
                content_changed,
                hash_changed,
            },
        )
    }

    /// Delete a document and all its versions
    pub fn delete_document(&mut self, doc_id: u128) -> (r: Result<(), DocumentStorageError>)
        requires
            old(self).wf(),
        ensures
            final(self).wf(),
            final(self).path() == old(self).path(),
            !old(self).documents().contains_key(doc_id) ==> {
                &&& (r is Err && r->Err_0 == DocumentStorageError::NotFound(doc_id))
                &&& final(self).doc_views() == old(self).doc_views()
                &&& final(self).versions() == old(self).versions()
            },
            old(self).documents().contains_key(doc_id) ==> {
                &&& r is Ok
                &&& final(self).documents() == old(self).documents().remove(doc_id)
                &&& final(self).doc_views() == old(self).doc_views().remove(
                    key_pos(old(self).doc_views(), doc_key(), doc_id),
                )
                &&& final(self).versions() == old(self).versions().remove(doc_id)
            },
    {
        let i = match self.find_doc(doc_id) {
            Some(i) => i,
            None => {
                return Err(DocumentStorageError::NotFound(doc_id));
            },
        };
        proof {
            lemma_to_map_at(self.doc_views(), doc_key(), doc_val(), i as int);
            lemma_to_map_remove(self.doc_views(), doc_key(), doc_val(), i as int);
        }
        let ghost before = self.doc_views();
        self.documents.remove(i);
        assert(self.doc_views() =~= before.remove(i as int));
        assert forall|k: int| 0 <= k < self.doc_views().len() implies (#[trigger] self.doc_views()[k]).current_version >= 1 by {
            if k < i {
                assert(self.doc_views()[k] == before[k]);
            } else {
                assert(self.doc_views()[k] == before[k + 1]);
            }
        }
        match self.find_versions(doc_id) {
            Some(j) => {
                proof {
                    lemma_to_map_at(self.versions@, list_key(), list_val(), j as int);
                    lemma_to_map_remove(self.versions@, list_key(), list_val(), j as int);
                }
                self.versions.remove(j);
            },
            None => {
                assert(self.versions() =~= self.versions().remove(doc_id));
            },
        }
        Ok(())
    }

    /// Archive a document
    ///
    /// `modified_by` is not recorded: the document keeps its last modifier.
    pub fn archive_document(&mut self, doc_id: u128, modified_by: String) -> (r: Result<
        (),
        DocumentStorageError,
    >)
        requires
            old(self).wf(),
        ensures
            final(self).wf(),
            final(self).path() == old(self).path(),
            final(self).versions() == old(self).versions(),
            !old(self).documents().contains_key(doc_id) ==> ((r is Err && r->Err_0 == DocumentStorageError::NotFound(doc_id))) && final(self).doc_views() == old(self).doc_views(),
            old(self).documents().contains_key(doc_id) ==> {
                &&& r is Ok
                &&& final(self).documents().contains_key(doc_id)
                &&& final(self).documents()[doc_id] == (MetadataView {
                    archived: true,
                    modified_at: final(self).documents()[doc_id].modified_at,
                    ..old(self).documents()[doc_id]
                })
                &&& final(self).documents() == old(self).documents().insert(
                    doc_id,
                    final(self).documents()[doc_id],
                )
            },
    {
        let i = match self.find_doc(doc_id) {
            Some(i) => i,
            None => {
                return Err(DocumentStorageError::NotFound(doc_id));
            },
        };
        let mut metadata = self.documents[i].clone();
        metadata.archive();
        self.upsert_doc(metadata);
        Ok(())
    }

    /// Unarchive a document
    ///
    /// `modified_by` is not recorded: the document keeps its last modifier.
    pub fn unarchive_document(&mut self, doc_id: u128, modified_by: String) -> (r: Result<
        (),
        DocumentStorageError,
    >)
        requires
            old(self).wf(),
        ensures
            final(self).wf(),
            final(self).path() == old(self).path(),
            final(self).versions() == old(self).versions(),
            !old(self).documents().contains_key(doc_id) ==> ((r is Err && r->Err_0 == DocumentStorageError::NotFound(doc_id))) && final(self).doc_views() == old(self).doc_views(),
            old(self).documents().contains_key(doc_id) ==> {
                &&& r is Ok
                &&& final(self).documents().contains_key(doc_id)
                &&& final(self).documents()[doc_id] == (MetadataView {
                    archived: false,
                    modified_at: final(self).documents()[doc_id].modified_at,
                    ..old(self).documents()[doc_id]
                })
                &&& final(self).documents() == old(self).documents().insert(
                    doc_id,
                    final(self).documents()[doc_id],
                )
            },
    {
        let i = match self.find_doc(doc_id) {
            Some(i) => i,
            None => {
                return Err(DocumentStorageError::NotFound(doc_id));
            },
        };
        let mut metadata = self.documents[i].clone();
        metadata.unarchive();
        self.upsert_doc(metadata);
        Ok(())
    }

    /// List all active documents
    pub fn list_documents(&self) -> (r: Vec<DocumentMetadata>)
        requires
            self.wf(),
        ensures
            r@.map_values(meta_view()) == self.doc_views().filter(active_doc()),
    {
        let ghost pred = active_doc();
        let mut out: Vec<DocumentMetadata> = Vec::new();
        let mut i: usize = 0;
        while i < self.documents.len()
            invariant
                i <= self.documents@.len(),
                out@.map_values(meta_view()) == self.doc_views().take(i as int).filter(pred),
                pred == active_doc(),
            decreases self.documents@.len() - i,
        {
            proof {
                reveal_with_fuel(Seq::filter, 1);
                assert(self.doc_views().take(i + 1).drop_last() =~= self.doc_views().take(i as int));
            }
            if self.documents[i].is_active() {
                let ghost before = out@;
                out.push(self.documents[i].clone());
                assert(out@.map_values(meta_view()) =~= before.map_values(meta_view()).push(
                    self.doc_views()[i as int],
                ));
            }
            i = i + 1;
        }
        assert(self.doc_views().take(self.documents@.len() as int) =~= self.doc_views());
        out
    }

    /// Whether document `m` matches the lowercased query.
    fn doc_matches(m: &DocumentMetadata, query_lower: &str) -> (r: bool)
        ensures
            r == matches_query(m@, query_lower@),
    {
        if !m.is_active() {
            return false;
        }
        let title = str_to_lowercase(m.title.as_str());
        if str_contains(title.as_str(), query_lower) {
            return true;
        }
        let mut i: usize = 0;
        while i < m.tags.len()
            invariant
                i <= m.tags@.len(),
                !m@.archived,
                forall|k: int|
                    0 <= k < i ==> !contains_seq(unicode_lowercase(#[trigger] m@.tags[k]), query_lower@),
            decreases m.tags@.len() - i,
        {
            let tag = str_to_lowercase(m.tags[i].as_str());
            if str_contains(tag.as_str(), query_lower) {
                assert(m@.tags[i as int] == m.tags@[i as int]@);
                assert(contains_seq(unicode_lowercase(m@.tags[i as int]), query_lower@));
                return true;
            }
            assert(m@.tags[i as int] == m.tags@[i as int]@);
            i = i + 1;
        }
        match &m.description {
            Some(d) => {
                let dl = str_to_lowercase(d.as_str());
                str_contains(dl.as_str(), query_lower)
            },
            None => false,
        }
    }

    /// Search documents by title or tags
    ///
    /// The active documents whose title, a tag or the description contains
    /// the query, compared in lowercase.
    pub fn search_documents(&self, query: &str) -> (r: Vec<DocumentMetadata>)
        requires
            self.wf(),
        ensures
            r@.map_values(meta_view()) == self.doc_views().filter(
                query_matcher(unicode_lowercase(query@)),
            ),
    {
        let query_lower = str_to_lowercase(query);
        let ghost pred = query_matcher(unicode_lowercase(query@));
        let mut out: Vec<DocumentMetadata> = Vec::new();
        let mut i: usize = 0;
        while i < self.documents.len()
            invariant
                i <= self.documents@.len(),
                query_lower@ == unicode_lowercase(query@),
                out@.map_values(meta_view()) == self.doc_views().take(i as int).filter(pred),
                pred == query_matcher(unicode_lowercase(query@)),
            decreases self.documents@.len() - i,
        {
            proof {
                reveal_with_fuel(Seq::filter, 1);
                assert(self.doc_views().take(i + 1).drop_last() =~= self.doc_views().take(i as int));
            }
            if Self::doc_matches(&self.documents[i], query_lower.as_str()) {
                let ghost before = out@;
                out.push(self.documents[i].clone());
                assert(out@.map_values(meta_view()) =~= before.map_values(meta_view()).push(
                    self.doc_views()[i as int],
                ));
            }
            i = i + 1;
        }
        assert(self.doc_views().take(self.documents@.len() as int) =~= self.doc_views());
        out
    }

    /// Get the storage path
    pub fn storage_path(&self) -> (r: &String)
        ensures
            r@ == self.path(),
    {
        &self.storage_path
    }

    /// Generate a link/URI for a document
    pub fn generate_document_link(&self, doc_id: u128) -> (r: String)
        ensures
            r@ == "document://"@ + uuid_text(doc_id),
    {
        let mut r = string_of("document://");
        let id = id_to_string(doc_id);
        r.append(id.as_str());
        r
    }

    /// Generate a link/URI for a specific document version
    pub fn generate_version_link(&self, doc_id: u128, version: u32) -> (r: String)
        ensures
            r@ == "document://"@ + uuid_text(doc_id) + "?version="@ + decimal(version as nat),
    {
        let mut r = self.generate_document_link(doc_id);
        r.append("?version=");
        let v = u32_to_decimal(version);
        r.append(v.as_str());
        r
    }
}

impl Default for DocumentStorage {
    fn default() -> (r: Self)
        ensures
            r.wf(),
            r.doc_views() == Seq::<MetadataView>::empty(),
            r.path() == "./documents"@,
    {
        Self::new(None)
    }
}

/// Every version of the document is stored, the `i`-th as number `i + 1`,
/// and the last is the current one.
pub open spec fn versions_numbered(s: DocumentStorage, id: u128) -> bool {
    &&& s.documents().contains_key(id)
    &&& s.versions_of(id).len() == s.documents()[id].current_version
    &&& forall|i: int|
        0 <= i < s.versions_of(id).len() ==> (#[trigger] s.versions_of(id)[i]).info.version_number
            == i + 1
}

/// Reading a new document back gives its initial content as version 1:
/// after `create_document` answers `id` (an identifier that no document
/// had), the document is at version 1, which is its only version and holds
/// the initial content, so `get_latest_version(id)` answers it.
pub proof fn lemma_latest_after_create(
    before: DocumentStorage,
    after: DocumentStorage,
    id: u128,
    m: MetadataView,
    v: DocumentVersion,
    by: String,
    content: String,
)
    requires
        before.wf(),
        !before.documents().contains_key(id),
        !before.versions().contains_key(id),
        m.id == id,
        m.current_version == 1,
        after.doc_views() == upsert(before.doc_views(), doc_key(), m),
        made_version(v, 1, by, content),
        after.versions() == before.versions().insert(id, before.versions_of(id).push(v)),
    ensures
        after.documents().contains_key(id),
        after.documents()[id] == m,
        after.versions_of(id) == seq![v],
        after.versions_of(id)[after.documents()[id].current_version - 1].content == content,
        versions_numbered(after, id),
{
    lemma_upsert(before.doc_views(), doc_key(), doc_val(), m);
    assert(before.versions_of(id).push(v) =~= seq![v]);
}

/// Reading a document back after an update gives the new content as the
/// new current version: for a document whose versions are numbered, an
/// update that answers `n` stores its content as version `n`, and the
/// versions are still numbered. So successive updates answer successive
/// numbers, and `get_version(id, n)` gives the version numbered `n`.
pub proof fn lemma_latest_after_update(
    before: DocumentStorage,
    after: DocumentStorage,
    id: u128,
    n: u32,
    v: DocumentVersion,
    content: String,
)
    requires
        versions_numbered(before, id),
        n == before.documents()[id].current_version + 1,
        after.documents().contains_key(id),
        after.documents()[id].current_version == n,
        v.content == content,
        v.info.version_number == n,
        after.versions() == before.versions().insert(id, before.versions_of(id).push(v)),
    ensures
        versions_numbered(after, id),
        after.versions_of(id)[n - 1].content == content,
        forall|k: int|
            0 <= k < before.versions_of(id).len() ==> #[trigger] after.versions_of(id)[k]
                == before.versions_of(id)[k],
{
}

/// One successful update of document `id` from `before` to `after`: the
/// document moves to version `n`, one past its current version, and a
/// version numbered `n` that holds `content` is added after its versions.
pub open spec fn update_step(
    before: DocumentStorage,
    after: DocumentStorage,
    id: u128,
    n: u32,
    content: String,
) -> bool {
    &&& before.documents().contains_key(id)
    &&& n == before.documents()[id].current_version + 1
    &&& after.documents().contains_key(id)
    &&& after.documents()[id].current_version == n
    &&& exists|v: DocumentVersion|
        {
            &&& v.content == content
            &&& v.info.version_number == n
            &&& after.versions() == before.versions().insert(id, before.versions_of(id).push(v))
        }
}

/// Successive updates answer successive numbers: from a document at
/// version `c` whose versions are numbered, `k` updates one after the
/// other answer `c + 1`, ..., `c + k`; afterwards the document is at
/// version `c + k`, its versions are still numbered, and the version that
/// the `i`-th update answered holds that update's content.
pub proof fn lemma_updates_number_consecutively(
    states: Seq<DocumentStorage>,
    id: u128,
    answers: Seq<u32>,
    contents: Seq<String>,
)
    requires
        states.len() == answers.len() + 1,
        contents.len() == answers.len(),
        versions_numbered(states[0], id),
        forall|i: int|
            0 <= i < answers.len() ==> update_step(
                states[i],
                states[i + 1],
                id,
                #[trigger] answers[i],
                contents[i],
            ),
    ensures
        forall|i: int|
            0 <= i < answers.len() ==> #[trigger] answers[i] == states[0].documents()[id].current_version
                + i + 1,
        versions_numbered(states.last(), id),
        states.last().documents()[id].current_version == states[0].documents()[id].current_version
            + answers.len(),
        forall|i: int|
            0 <= i < answers.len() ==> (#[trigger] states.last().versions_of(id)[answers[i] - 1]).content
                == contents[i],
    decreases answers.len(),
{
    let k = answers.len() as int;
    if k > 0 {
        let ps = states.take(k);
        let pa = answers.take(k - 1);
        let pc = contents.take(k - 1);
        assert forall|i: int| 0 <= i < pa.len() implies update_step(
            ps[i],
            ps[i + 1],
            id,
            #[trigger] pa[i],
            pc[i],
        ) by {
            assert(pa[i] == answers[i]);
            assert(ps[i] == states[i] && ps[i + 1] == states[i + 1] && pc[i] == contents[i]);
        }
        lemma_updates_number_consecutively(ps, id, pa, pc);
        let before = states[k - 1];
        let after = states[k];
        assert(ps.last() == before);
        assert(update_step(before, after, id, answers[k - 1], contents[k - 1]));
        let v = choose|v: DocumentVersion|
            {
                &&& v.content == contents[k - 1]
                &&& v.info.version_number == answers[k - 1]
                &&& after.versions() == before.versions().insert(id, before.versions_of(id).push(v))
            };
        lemma_latest_after_update(before, after, id, answers[k - 1], v, contents[k - 1]);
        assert forall|i: int| 0 <= i < answers.len() implies #[trigger] answers[i]
            == states[0].documents()[id].current_version + i + 1 by {
            if i < k - 1 {
                assert(pa[i] == answers[i]);
            }
        }
        assert forall|i: int| 0 <= i < answers.len() implies (#[trigger] states.last().versions_of(
            id,
        )[answers[i] - 1]).content == contents[i] by {
            if i < k - 1 {
                assert(pa[i] == answers[i] && pc[i] == contents[i]);
                assert(ps.last().versions_of(id)[pa[i] - 1].content == pc[i]);
            }
        }
    }
}

/// A deleted document is gone with all its versions: after
/// `delete_document(id)`, `get_metadata(id)` and `get_version(id, ..)`
/// answer `NotFound`.
pub proof fn lemma_gone_after_delete(before: DocumentStorage, after: DocumentStorage, id: u128)
    requires
        after.documents() == before.documents().remove(id),
        after.versions() == before.versions().remove(id),
    ensures
        !after.documents().contains_key(id),
        !after.versions().contains_key(id),
{
}

/// Search is case-insensitive and matches anywhere in a title: an active
/// document whose lowercased title holds the lowercased query at any
/// position `k` is found.
pub proof fn lemma_search_finds_title_match(
    docs: DocumentStorage,
    query: Seq<char>,
    found: Seq<MetadataView>,
    i: int,
    k: int,
)
    requires
        found == docs.doc_views().filter(query_matcher(unicode_lowercase(query))),
        0 <= i < docs.doc_views().len(),
        !docs.doc_views()[i].archived,
        0 <= k,
        k + unicode_lowercase(query).len() <= unicode_lowercase(docs.doc_views()[i].title).len(),
        unicode_lowercase(docs.doc_views()[i].title).subrange(k, k + unicode_lowercase(query).len())
            == unicode_lowercase(query),
    ensures
        found.contains(docs.doc_views()[i]),
{
    let q = unicode_lowercase(query);
    let m = docs.doc_views()[i];
    assert(occurs_at(unicode_lowercase(m.title), q, k));
    docs.doc_views().lemma_filter_contains(query_matcher(q), i);
}

/// Search finds only active stored documents.
pub proof fn lemma_search_finds_only_active(
    docs: DocumentStorage,
    query: Seq<char>,
    found: Seq<MetadataView>,
)
    requires
        found == docs.doc_views().filter(query_matcher(unicode_lowercase(query))),
    ensures
        forall|j: int|
            0 <= j < found.len() ==> !(#[trigger] found[j]).archived && docs.doc_views().contains(
                found[j],
            ),
{
    assert forall|j: int| 0 <= j < found.len() implies !(#[trigger] found[j]).archived
        && docs.doc_views().contains(found[j]) by {
        docs.doc_views().lemma_filter_pred(query_matcher(unicode_lowercase(query)), j);
        docs.doc_views().lemma_filter_contains_rev(query_matcher(unicode_lowercase(query)), found[j]);
    }
}

} // verus!
