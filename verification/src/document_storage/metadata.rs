//! Metadata associated with a document.

use vstd::prelude::*;
use crate::utils::ids::now_micros;
use crate::utils::text::str_eq;
use crate::message_router::channel::{clone_strings, lemma_texts_take, not_text, texts};
use crate::permission::permission::clone_opt_string;

verus! {

/// Access level for documents
#[derive(Debug, Clone, Copy, PartialEq, Eq, Structural)]
pub enum AccessLevel {
    /// Anyone can read
    Public,
    /// Only participants can read
    Private,
    /// Requires specific permission
    Restricted,
}

impl Default for AccessLevel {
    fn default() -> (r: Self)
        ensures
            r == AccessLevel::Private,
    {
        AccessLevel::Private
    }
}

/// The value of document metadata: its fields, with texts in place of
/// strings.
pub struct MetadataView {
    pub id: u128,
    pub title: Seq<char>,
    pub description: Option<Seq<char>>,
    pub tags: Seq<Seq<char>>,
    pub created_at: i64,
    pub modified_at: i64,
    pub created_by: Seq<char>,
    pub modified_by: Seq<char>,
    pub current_version: u32,
    pub archived: bool,
    pub access_level: AccessLevel,
}

/// The text of an optional string.
pub open spec fn opt_text(s: Option<String>) -> Option<Seq<char>> {
    match s {
        Some(x) => Some(x@),
        None => None,
    }
}

/// Metadata associated with a document
#[derive(Debug)]
pub struct DocumentMetadata {
    /// Unique identifier for the document
    pub id: u128,
    /// Title of the document
    pub title: String,
    /// Optional description
    pub description: Option<String>,
    /// Tags for categorization
    pub tags: Vec<String>,
    /// When the document was created (microseconds since the epoch)
    pub created_at: i64,
    /// When the document was last modified (microseconds since the epoch)
    pub modified_at: i64,
    /// Who created the document
    pub created_by: String,
    /// Who last modified the document
    pub modified_by: String,
    /// Current version number
    pub current_version: u32,
    /// Whether the document is archived
    pub archived: bool,
    /// Access level (public, private, restricted)
    pub access_level: AccessLevel,
}

impl View for DocumentMetadata {
    type V = MetadataView;

    open spec fn view(&self) -> MetadataView {
        MetadataView {
            id: self.id,
            title: self.title@,
            description: opt_text(self.description),
            tags: texts(self.tags@),
            created_at: self.created_at,
            modified_at: self.modified_at,
            created_by: self.created_by@,
            modified_by: self.modified_by@,
            current_version: self.current_version,
            archived: self.archived,
            access_level: self.access_level,
        }
    }
}

impl Clone for DocumentMetadata {
    fn clone(&self) -> (r: Self)
        ensures
            r@ == self@,
    {
        DocumentMetadata {
            id: self.id,
            title: self.title.clone(),
            description: clone_opt_string(&self.description),
            tags: clone_strings(&self.tags),
            created_at: self.created_at,
            modified_at: self.modified_at,
            created_by: self.created_by.clone(),
            modified_by: self.modified_by.clone(),
            current_version: self.current_version,
            archived: self.archived,
            access_level: self.access_level,
        }
    }
}

/// `new` is `old` touched: only `modified_at` and `modified_by` may differ,
/// and `modified_by` is `by`.
pub open spec fn touched(old: MetadataView, new: MetadataView, by: Seq<char>) -> bool {
    new == MetadataView { modified_at: new.modified_at, modified_by: by, ..old }
}

impl DocumentMetadata {
    /// Create new metadata for a document
    ///
    /// Version 0, not archived, private, no description and no tags; the
    /// creator is also the last modifier.
    pub fn new(id: u128, title: String, created_by: String) -> (r: Self)
        ensures
            r@.id == id,
            r@.title == title@,
            r@.description is None,
            r@.tags == Seq::<Seq<char>>::empty(),
            r@.created_at == r@.modified_at,
            r@.created_by == created_by@,
            r@.modified_by == created_by@,
            r@.current_version == 0,
            !r@.archived,
            r@.access_level == AccessLevel::Private,
    {
        let now = now_micros();
        let modified_by = created_by.clone();
        let r = Self {
            id,
            title,
            description: None,
            tags: Vec::new(),
            created_at: now,
            modified_at: now,
            created_by,
            modified_by,
            current_version: 0,
            archived: false,
            access_level: AccessLevel::Private,
        };
        assert(r@.tags =~= Seq::<Seq<char>>::empty());
        r
    }

    /// Set the description
    pub fn with_description(self, description: String) -> (r: Self)
        ensures
            r@ == (MetadataView { description: Some(description@), ..self@ }),
    {
        let mut m = self;
        m.description = Some(description);
        m
    }

    /// Whether `tag` is one of the tags.
    fn has_tag(&self, tag: &str) -> (r: bool)
        ensures
            r == self@.tags.contains(tag@),
    {
        let mut i: usize = 0;
        while i < self.tags.len()
            invariant
                i <= self.tags@.len(),
                forall|k: int| 0 <= k < i ==> #[trigger] self.tags@[k]@ != tag@,
            decreases self.tags@.len() - i,
        {
            if str_eq(self.tags[i].as_str(), tag) {
                assert(self@.tags[i as int] == tag@);
                return true;
            }
            i = i + 1;
        }
        assert forall|k: int| 0 <= k < self@.tags.len() implies self@.tags[k] != tag@ by {
            assert(self@.tags[k] == self.tags@[k]@);
        }
        false
    }

    /// Add a tag
    ///
    /// A tag already present is not added twice.
    pub fn add_tag(&mut self, tag: String)
        ensures
            old(self)@.tags.contains(tag@) ==> final(self)@ == old(self)@,
            !old(self)@.tags.contains(tag@) ==> final(self)@ == (MetadataView {
                tags: old(self)@.tags.push(tag@),
                ..old(self)@
            }),
    {
        if !self.has_tag(tag.as_str()) {
            self.tags.push(tag);
            assert(self@.tags =~= old(self)@.tags.push(tag@));
        }
    }

    /// Remove a tag
    pub fn remove_tag(&mut self, tag: &str)
        ensures
            final(self)@ == (MetadataView {
                tags: old(self)@.tags.filter(not_text(tag@)),
                ..old(self)@
            }),
    {
        let ghost pred = not_text(tag@);
        let ghost before = self.tags@;
        let mut kept: Vec<String> = Vec::new();
        let mut i: usize = 0;
        while i < self.tags.len()
            invariant
                self.tags@ == before,
                i <= before.len(),
                texts(kept@) == texts(before.take(i as int)).filter(pred),
                pred == not_text(tag@),
            decreases before.len() - i,
        {
            proof {
                reveal_with_fuel(Seq::filter, 1);
                lemma_texts_take(before, i as int);
                assert(texts(before.take(i + 1)).drop_last() =~= texts(before.take(i as int)));
            }
            if !str_eq(self.tags[i].as_str(), tag) {
                let ghost k0 = kept@;
                kept.push(self.tags[i].clone());
                assert(texts(kept@) =~= texts(k0).push(before[i as int]@));
            }
            i = i + 1;
        }
        assert(before.take(before.len() as int) =~= before);
        self.tags = kept;
    }

    /// Update the modified timestamp and user
    pub fn touch(&mut self, modified_by: String)
        ensures
            touched(old(self)@, final(self)@, modified_by@),
    {
        self.modified_at = now_micros();
        self.modified_by = modified_by;
    }

    /// Increment the version number
    ///
    /// The version must not be at `u32::MAX` (the increment would overflow).
    pub fn increment_version(&mut self)
        requires
            old(self).current_version < u32::MAX,
        ensures
            touched(
                MetadataView { current_version: (old(self).current_version + 1) as u32, ..old(self)@ },
                final(self)@,
                old(self)@.modified_by,
            ),
    {
        self.current_version = self.current_version + 1;
        let by = self.modified_by.clone();
        self.touch(by);
    }

    /// Set the access level
    pub fn set_access_level(&mut self, level: AccessLevel)
        ensures
            touched(
                MetadataView { access_level: level, ..old(self)@ },
                final(self)@,
                old(self)@.modified_by,
            ),
    {
        self.access_level = level;
        let by = self.modified_by.clone();
        self.touch(by);
    }

    /// Archive the document
    pub fn archive(&mut self)
        ensures
            touched(MetadataView { archived: true, ..old(self)@ }, final(self)@, old(self)@.modified_by),
    {
        self.archived = true;
        let by = self.modified_by.clone();
        self.touch(by);
    }

    /// Unarchive the document
    pub fn unarchive(&mut self)
        ensures
            touched(
                MetadataView { archived: false, ..old(self)@ },
                final(self)@,
                old(self)@.modified_by,
            ),
    {
        self.archived = false;
        let by = self.modified_by.clone();
        self.touch(by);
    }

    /// Check if document is active (not archived)
    pub fn is_active(&self) -> (r: bool)
        ensures
            r == !self@.archived,
    {
        !self.archived
    }
}

} // verus!
