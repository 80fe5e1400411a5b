//! Shared domain records: profiles, courses, concepts, content items and the
//! per-(profile, concept) freshness state.

use vstd::prelude::*;

use crate::fsrs::MemoryState;
use crate::text::text_eq;

verus! {

/// A point in time: whole seconds since the Unix epoch plus a nanosecond part.
/// Instants are ordered by seconds first, then by nanoseconds.
#[derive(Debug, Clone, Copy, PartialEq, Eq, Structural)]
pub struct Timestamp {
    pub secs: i64,
    pub nanos: u32,
}

impl Timestamp {
    /// `self` is no later than `other`.
    pub open spec fn spec_le(self, other: Timestamp) -> bool {
        self.secs < other.secs || (self.secs == other.secs && self.nanos <= other.nanos)
    }

    /// `self` is no later than `other`.
    pub fn le(&self, other: &Timestamp) -> (r: bool)
        ensures
            r == self.spec_le(*other),
    {
        self.secs < other.secs || (self.secs == other.secs && self.nanos <= other.nanos)
    }
}

/// A copy of `v`, element by element.
pub fn copy_strings(v: &Vec<String>) -> (r: Vec<String>)
    ensures
        r@ == v@,
{
    let mut r: Vec<String> = Vec::new();
    let mut i: usize = 0;
    while i < v.len()
        invariant
            i <= v.len(),
            r@ == v@.take(i as int),
        decreases v.len() - i,
    {
        r.push(v[i].clone());
        i += 1;
        assert(r@ =~= v@.take(i as int));
    }
    assert(v@.take(v.len() as int) =~= v@);
    r
}

/// A copy of `v`, element by element.
pub fn copy_ids(v: &Vec<u128>) -> (r: Vec<u128>)
    ensures
        r@ == v@,
{
    let mut r: Vec<u128> = Vec::new();
    let mut i: usize = 0;
    while i < v.len()
        invariant
            i <= v.len(),
            r@ == v@.take(i as int),
        decreases v.len() - i,
    {
        r.push(v[i]);
        i += 1;
        assert(r@ =~= v@.take(i as int));
    }
    assert(v@.take(v.len() as int) =~= v@);
    r
}

/// A copy of an optional string.
pub fn copy_opt_string(v: &Option<String>) -> (r: Option<String>)
    ensures
        r == *v,
{
    match v {
        Some(s) => Some(s.clone()),
        None => None,
    }
}

/// A learner profile. Identifiers are 128-bit UUID values.
#[derive(Debug)]
pub struct Profile {
    pub id: u128,
    pub name: String,
    /// Human label for the comprehension tier, e.g. "beginner".
    pub level: String,
    /// Interest tags used to bias comprehensible-input selection.
    pub interests: Vec<String>,
    pub created_at: Timestamp,
}

/// The value of a [`Profile`], with its list of interests as a sequence.
pub struct ProfileView {
    pub id: u128,
    pub name: String,
    pub level: String,
    pub interests: Seq<String>,
    pub created_at: Timestamp,
}

impl View for Profile {
    type V = ProfileView;

    open spec fn view(&self) -> ProfileView {
        ProfileView {
            id: self.id,
            name: self.name,
            level: self.level,
            interests: self.interests@,
            created_at: self.created_at,
        }
    }
}

impl Clone for Profile {
    fn clone(&self) -> (r: Self)
        ensures
            r@ == self@,
    {
        Profile {
            id: self.id,
            name: self.name.clone(),
            level: self.level.clone(),
            interests: copy_strings(&self.interests),
            created_at: self.created_at,
        }
    }
}

/// The two kinds of course.
#[derive(Debug, Clone, Copy, PartialEq, Eq, Structural)]
pub enum CourseKind {
    Language,
    Academic,
}

impl CourseKind {
    /// The stored name of the kind.
    pub open spec fn label(self) -> Seq<char> {
        match self {
            CourseKind::Language => "language"@,
            CourseKind::Academic => "academic"@,
        }
    }
}

/// The stored name of a course kind: "language" or "academic".
pub fn course_kind_label(kind: CourseKind) -> (r: &'static str)
    ensures
        r@ == kind.label(),
{
    match kind {
        CourseKind::Language => "language",
        CourseKind::Academic => "academic",
    }
}

/// Reads a stored course kind: "language" is a language course, any other
/// text an academic one.
pub fn parse_course_kind(s: String) -> (r: CourseKind)
    ensures
        r == (if s@ == "language"@ { CourseKind::Language } else { CourseKind::Academic }),
{
    if text_eq(s.as_str(), "language") {
        CourseKind::Language
    } else {
        CourseKind::Academic
    }
}

/// A course: a named path through concepts and content.
#[derive(Debug)]
pub struct Course {
    pub id: u128,
    pub slug: String,
    pub title: String,
    pub kind: CourseKind,
    pub description: String,
}

impl Clone for Course {
    fn clone(&self) -> (r: Self)
        ensures
            r == *self,
    {
        Course {
            id: self.id,
            slug: self.slug.clone(),
            title: self.title.clone(),
            kind: self.kind,
            description: self.description.clone(),
        }
    }
}

/// A concept or vocabulary word: the unit of comprehension tracking.
#[derive(Debug)]
pub struct Concept {
    pub id: u128,
    pub course_id: u128,
    /// The word or concept name.
    pub name: String,
    /// Optional reading or definition.
    pub detail: Option<String>,
    /// Position within the course's curriculum.
    pub sequence: i32,
    /// Identifiers of the concepts this one builds on.
    pub prerequisites: Vec<u128>,
}

/// The value of a [`Concept`], with its prerequisites as a sequence.
pub struct ConceptView {
    pub id: u128,
    pub course_id: u128,
    pub name: String,
    pub detail: Option<String>,
    pub sequence: i32,
    pub prerequisites: Seq<u128>,
}

impl View for Concept {
    type V = ConceptView;

    open spec fn view(&self) -> ConceptView {
        ConceptView {
            id: self.id,
            course_id: self.course_id,
            name: self.name,
            detail: self.detail,
            sequence: self.sequence,
            prerequisites: self.prerequisites@,
        }
    }
}

impl Clone for Concept {
    fn clone(&self) -> (r: Self)
        ensures
            r@ == self@,
    {
        Concept {
            id: self.id,
            course_id: self.course_id,
            name: self.name.clone(),
            detail: copy_opt_string(&self.detail),
            sequence: self.sequence,
            prerequisites: copy_ids(&self.prerequisites),
        }
    }
}

/// The kinds of content item.
#[derive(Debug, Clone, Copy, PartialEq, Eq, Structural)]
pub enum ItemKind {
    Flashcard,
    Document,
    Video,
    Quiz,
}

impl ItemKind {
    /// The stored name of the kind.
    pub open spec fn label(self) -> Seq<char> {
        match self {
            ItemKind::Flashcard => "flashcard"@,
            ItemKind::Document => "document"@,
            ItemKind::Video => "video"@,
            ItemKind::Quiz => "quiz"@,
        }
    }
}

/// The stored name of an item kind: "flashcard", "document", "video" or "quiz".
pub fn item_kind_label(kind: ItemKind) -> (r: &'static str)
    ensures
        r@ == kind.label(),
{
    match kind {
        ItemKind::Flashcard => "flashcard",
        ItemKind::Document => "document",
        ItemKind::Video => "video",
        ItemKind::Quiz => "quiz",
    }
}

/// Reads a stored item kind: "flashcard", "document" and "video" name their
/// kinds, any other text is a quiz.
pub fn parse_item_kind(s: &str) -> (r: ItemKind)
    ensures
        r == (if s@ == "flashcard"@ {
            ItemKind::Flashcard
        } else if s@ == "document"@ {
            ItemKind::Document
        } else if s@ == "video"@ {
            ItemKind::Video
        } else {
            ItemKind::Quiz
        }),
{
    if text_eq(s, "flashcard") {
        ItemKind::Flashcard
    } else if text_eq(s, "document") {
        ItemKind::Document
    } else if text_eq(s, "video") {
        ItemKind::Video
    } else {
        ItemKind::Quiz
    }
}

/// Reading back the stored name of a course kind gives the kind.
pub proof fn lemma_course_kind_roundtrip(kind: CourseKind)
    ensures
        (if kind.label() == "language"@ { CourseKind::Language } else { CourseKind::Academic }) == kind,
{
    reveal_strlit("language");
    reveal_strlit("academic");
    if kind == CourseKind::Academic {
        assert("academic"@[0] != "language"@[0]);
    }
}

/// Reading back the stored name of an item kind gives the kind.
pub proof fn lemma_item_kind_roundtrip(kind: ItemKind)
    ensures
        (if kind.label() == "flashcard"@ {
            ItemKind::Flashcard
        } else if kind.label() == "document"@ {
            ItemKind::Document
        } else if kind.label() == "video"@ {
            ItemKind::Video
        } else {
            ItemKind::Quiz
        }) == kind,
{
    reveal_strlit("flashcard");
    reveal_strlit("document");
    reveal_strlit("video");
    reveal_strlit("quiz");
    assert("flashcard"@[0] != "document"@[0]);
    assert("flashcard"@[0] != "video"@[0]);
    assert("flashcard"@[0] != "quiz"@[0]);
    assert("document"@[0] != "video"@[0]);
    assert("document"@[0] != "quiz"@[0]);
    assert("video"@[0] != "quiz"@[0]);
}

/// A piece of comprehensible input attached to concepts.
#[derive(Debug)]
pub struct ContentItem {
    pub id: u128,
    pub course_id: u128,
    pub kind: ItemKind,
    pub title: String,
    /// Front, prompt or body.
    pub front: String,
    /// Back, answer or transcript.
    pub back: String,
    pub concept_ids: Vec<u128>,
    pub tags: Vec<String>,
    /// Graded complexity in 0..1, as the bit pattern of an `f64`.
    pub difficulty_bits: u64,
    /// Optional external URL (blog, video, ...).
    pub source_url: Option<String>,
}

/// The value of a [`ContentItem`], with its lists as sequences.
pub struct ContentItemView {
    pub id: u128,
    pub course_id: u128,
    pub kind: ItemKind,
    pub title: String,
    pub front: String,
    pub back: String,
    pub concept_ids: Seq<u128>,
    pub tags: Seq<String>,
    pub difficulty_bits: u64,
    pub source_url: Option<String>,
}

impl View for ContentItem {
    type V = ContentItemView;

    open spec fn view(&self) -> ContentItemView {
        ContentItemView {
            id: self.id,
            course_id: self.course_id,
            kind: self.kind,
            title: self.title,
            front: self.front,
            back: self.back,
            concept_ids: self.concept_ids@,
            tags: self.tags@,
            difficulty_bits: self.difficulty_bits,
            source_url: self.source_url,
        }
    }
}

impl Clone for ContentItem {
    fn clone(&self) -> (r: Self)
        ensures
            r@ == self@,
    {
        ContentItem {
            id: self.id,
            course_id: self.course_id,
            kind: self.kind,
            title: self.title.clone(),
            front: self.front.clone(),
            back: self.back.clone(),
            concept_ids: copy_ids(&self.concept_ids),
            tags: copy_strings(&self.tags),
            difficulty_bits: self.difficulty_bits,
            source_url: copy_opt_string(&self.source_url),
        }
    }
}

/// Freshness (FSRS) state of one concept for one profile.
#[derive(Debug, Clone, Copy, PartialEq, Eq, Structural)]
pub struct FreshnessRecord {
    pub profile_id: u128,
    pub concept_id: u128,
    pub memory: MemoryState,
    pub due: Option<Timestamp>,
    /// Freshness (retrievability) at `updated_at`, as the bit pattern of an `f64`.
    pub freshness_bits: u64,
    pub updated_at: Timestamp,
}

/// One recorded review of a concept through a content item.
#[derive(Debug, Clone, Copy, PartialEq, Eq, Structural)]
pub struct EventRow {
    pub profile_id: u128,
    pub concept_id: u128,
    pub item_id: u128,
    pub rating: i16,
    /// Composite success signal, as the bit pattern of an `f64`.
    pub success_weight_bits: u64,
    pub created_at: Timestamp,
}

} // verus!
