//! The reference data: stable identifiers derived from names; the two
//! seeded courses (Physics 201, Japanese 103) with their concepts and graded
//! content items; the three seeded profiles; and the grouping of concepts by
//! course in curriculum order.

use vstd::prelude::*;

use crate::ids::{name_based_id, rfc4122_variant, uuid_version, v5_uuid};
use crate::keyed::{lemma_sorted_insert, sorted_by};
use crate::config::opt_text;
use crate::handlers::texts;
use crate::models::{Concept, ConceptView, ContentItem, Course, CourseKind, ItemKind, Profile, Timestamp};
use crate::repo::{concept_views, sequence_le};

verus! {

/// The namespace of every seeded identifier.
pub const SEED_NAMESPACE: u128 = 0x1b671a64_40d5_491e_99b0_da01ff1f3341u128;

/// The identifier of the seeded record of kind `kind` named `key`: the
/// name-based UUID of "kind:key" in the seed namespace.
pub open spec fn seed_id(kind: Seq<char>, key: Seq<char>) -> u128 {
    v5_uuid(SEED_NAMESPACE, kind + ":"@ + key)
}

/// The text `a:b`.
fn joined(a: &str, b: &str) -> (r: String)
    ensures
        r@ == a@ + ":"@ + b@,
{
    let mut s = a.to_owned();
    s.append(":");
    s.append(b);
    s
}

/// The stable identifier of the seeded record of kind `kind` named `key`.
pub fn id(kind: &str, key: &str) -> (r: u128)
    ensures
        r == seed_id(kind@, key@),
        uuid_version(r) == 5,
        rfc4122_variant(r),
{
    let name = joined(kind, key);
    name_based_id(SEED_NAMESPACE, name.as_str())
}

/// The identifier of the record of kind `kind` named `key` within `course`
/// (named "slug:key").
pub open spec fn course_record_id(kind: Seq<char>, course: Course, key: Seq<char>) -> u128 {
    seed_id(kind, course.slug@ + ":"@ + key)
}

/// The identifier of `kind` record `key` within `course`.
fn course_id_of(kind: &str, course: &Course, key: &str) -> (r: u128)
    ensures
        r == course_record_id(kind@, *course, key@),
{
    let name = joined(course.slug.as_str(), key);
    id(kind, name.as_str())
}

/// The identifiers of the concepts named `keys` within `course`.
fn concept_ids(course: &Course, keys: &Vec<&str>) -> (r: Vec<u128>)
    ensures
        r@.len() == keys@.len(),
        forall|i: int| 0 <= i < keys@.len() ==> #[trigger] r@[i] == course_record_id("concept"@, *course, keys@[i]@),
{
    let mut r: Vec<u128> = Vec::new();
    let mut i: usize = 0;
    while i < keys.len()
        invariant
            i <= keys@.len(),
            r@.len() == i,
            forall|k: int| 0 <= k < i ==> #[trigger] r@[k] == course_record_id("concept"@, *course, keys@[k]@),
        decreases keys.len() - i,
    {
        r.push(course_id_of("concept", course, keys[i]));
        i += 1;
    }
    r
}

/// Owned copies of `v`.
fn owned_texts(v: &Vec<&str>) -> (r: Vec<String>)
    ensures
        r@.len() == v@.len(),
        forall|i: int| 0 <= i < v@.len() ==> (#[trigger] r@[i])@ == v@[i]@,
{
    let mut r: Vec<String> = Vec::new();
    let mut i: usize = 0;
    while i < v.len()
        invariant
            i <= v@.len(),
            r@.len() == i,
            forall|k: int| 0 <= k < i ==> (#[trigger] r@[k])@ == v@[k]@,
        decreases v.len() - i,
    {
        r.push(v[i].to_owned());
        i += 1;
    }
    r
}

/// An owned copy of an optional text.
fn owned_opt(v: Option<&str>) -> (r: Option<String>)
    ensures
        r is Some <==> v is Some,
        r matches Some(s) ==> s@ == v.unwrap()@,
{
    match v {
        Some(s) => Some(s.to_owned()),
        None => None,
    }
}

/// The texts of a sequence of string slices.
pub open spec fn strs(s: Seq<&str>) -> Seq<Seq<char>> {
    s.map_values(|x: &str| x@)
}

/// The text of an optional string slice.
pub open spec fn opt_str(o: Option<&str>) -> Option<Seq<char>> {
    match o {
        Some(s) => Some(s@),
        None => None,
    }
}

/// `r` is the concept `key` of `course`, named `name`, with reading or
/// definition `detail`, at position `sequence`, building on the concepts of
/// `course` named `prereqs`.
pub open spec fn concept_is(
    r: Concept,
    course: Course,
    key: Seq<char>,
    name: Seq<char>,
    detail: Option<Seq<char>>,
    sequence: i32,
    prereqs: Seq<Seq<char>>,
) -> bool {
    &&& r.id == course_record_id("concept"@, course, key)
    &&& r.course_id == course.id
    &&& r.name@ == name
    &&& opt_text(r.detail) == detail
    &&& r.sequence == sequence
    &&& r.prerequisites@ == prereqs.map_values(|k: Seq<char>| course_record_id("concept"@, course, k))
}

/// `r` is the content item `key` of `course` with the given fields, attached
/// to the concepts of `course` named `concept_keys`.
pub open spec fn item_is(
    r: ContentItem,
    course: Course,
    key: Seq<char>,
    kind: ItemKind,
    title: Seq<char>,
    front: Seq<char>,
    back: Seq<char>,
    concept_keys: Seq<Seq<char>>,
    tags: Seq<Seq<char>>,
    difficulty_bits: u64,
    url: Option<Seq<char>>,
) -> bool {
    &&& r.id == course_record_id("item"@, course, key)
    &&& r.course_id == course.id
    &&& r.kind == kind
    &&& r.title@ == title
    &&& r.front@ == front
    &&& r.back@ == back
    &&& r.concept_ids@ == concept_keys.map_values(|k: Seq<char>| course_record_id("concept"@, course, k))
    &&& texts(r.tags@) == tags
    &&& r.difficulty_bits == difficulty_bits
    &&& opt_text(r.source_url) == url
}

/// `c` is the seeded course `slug` with the given title, kind and description.
pub open spec fn course_is(c: Course, slug: Seq<char>, title: Seq<char>, kind: CourseKind, description: Seq<char>) -> bool {
    &&& c.id == seed_id("course"@, slug)
    &&& c.slug@ == slug
    &&& c.title@ == title
    &&& c.kind == kind
    &&& c.description@ == description
}

/// The instant `days` whole days before `t`.
pub open spec fn days_before(t: Timestamp, days: int) -> Timestamp {
    Timestamp { secs: (t.secs - days * 86400) as i64, nanos: t.nanos }
}

/// `p` is the seeded profile `key` with the given name, level, interests and
/// creation time.
pub open spec fn profile_is(
    p: Profile,
    key: Seq<char>,
    name: Seq<char>,
    level: Seq<char>,
    interests: Seq<Seq<char>>,
    created_at: Timestamp,
) -> bool {
    &&& p.id == seed_id("profile"@, key)
    &&& p.name@ == name
    &&& p.level@ == level
    &&& texts(p.interests@) == interests
    &&& p.created_at == created_at
}

/// The concept `key` of `course`, with its prerequisites named by key.
pub fn concept(course: &Course, key: &str, name: &str, detail: Option<&str>, sequence: i32, prereqs: &Vec<&str>) -> (r: Concept)
    ensures
        r.id == course_record_id("concept"@, *course, key@),
        r.course_id == course.id,
        r.name@ == name@,
        r.detail is Some <==> detail is Some,
        r.detail matches Some(d) ==> d@ == detail.unwrap()@,
        r.sequence == sequence,
        r.prerequisites@.len() == prereqs@.len(),
        forall|i: int|
            0 <= i < prereqs@.len() ==> #[trigger] r.prerequisites@[i] == course_record_id("concept"@, *course, prereqs@[i]@),
        concept_is(r, *course, key@, name@, opt_str(detail), sequence, strs(prereqs@)),
{
    let r = Concept {
        id: course_id_of("concept", course, key),
        course_id: course.id,
        name: name.to_owned(),
        detail: owned_opt(detail),
        sequence,
        prerequisites: concept_ids(course, prereqs),
    };
    assert(r.prerequisites@ =~= strs(prereqs@).map_values(|k: Seq<char>| course_record_id("concept"@, *course, k)));
    r
}

/// The content item `key` of `course`, attached to the concepts named by
/// `concept_keys`; `difficulty_bits` is the bit pattern of its `f64` grade.
pub fn item(
    course: &Course,
    key: &str,
    kind: ItemKind,
    title: &str,
    front: &str,
    back: &str,
    concept_keys: &Vec<&str>,
    tags: &Vec<&str>,
    difficulty_bits: u64,
    url: Option<&str>,
) -> (r: ContentItem)
    ensures
        r.id == course_record_id("item"@, *course, key@),
        r.course_id == course.id,
        r.kind == kind,
        r.title@ == title@,
        r.front@ == front@,
        r.back@ == back@,
        r.concept_ids@.len() == concept_keys@.len(),
        forall|i: int|
            0 <= i < concept_keys@.len() ==> #[trigger] r.concept_ids@[i] == course_record_id(
                "concept"@,
                *course,
                concept_keys@[i]@,
            ),
        r.tags@.len() == tags@.len(),
        forall|i: int| 0 <= i < tags@.len() ==> (#[trigger] r.tags@[i])@ == tags@[i]@,
        r.difficulty_bits == difficulty_bits,
        r.source_url is Some <==> url is Some,
        r.source_url matches Some(u) ==> u@ == url.unwrap()@,
        item_is(r, *course, key@, kind, title@, front@, back@, strs(concept_keys@), strs(tags@), difficulty_bits, opt_str(url)),
{
    let r = ContentItem {
        id: course_id_of("item", course, key),
        course_id: course.id,
        kind,
        title: title.to_owned(),
        front: front.to_owned(),
        back: back.to_owned(),
        concept_ids: concept_ids(course, concept_keys),
        tags: owned_texts(tags),
        difficulty_bits,
        source_url: owned_opt(url),
    };
    assert(r.concept_ids@ =~= strs(concept_keys@).map_values(|k: Seq<char>| course_record_id("concept"@, *course, k)));
    assert(texts(r.tags@) =~= strs(tags@));
    r
}

/// The seeded course `slug`.
fn course_record(slug: &str, title: &str, kind: CourseKind, description: &str) -> (r: Course)
    ensures
        course_is(r, slug@, title@, kind, description@),
{
    Course {
        id: id("course", slug),
        slug: slug.to_owned(),
        title: title.to_owned(),
        kind,
        description: description.to_owned(),
    }
}

/// The two seeded courses: Physics 201 and Japanese 103.
pub fn seed_courses() -> (r: (Course, Course))
    ensures
        course_is(
            r.0,
            "physics-201"@,
            "Physics 201: Mechanics & Calculus"@,
            CourseKind::Academic,
            "College-level mechanics grounded in single-variable calculus."@,
        ),
        course_is(
            r.1,
            "japanese-103"@,
            "Japanese 103: Intermediate Vocabulary"@,
            CourseKind::Language,
            "Intermediate Japanese vocabulary & grammar via comprehensible input."@,
        ),
{
    let physics = course_record(
        "physics-201",
        "Physics 201: Mechanics & Calculus",
        CourseKind::Academic,
        "College-level mechanics grounded in single-variable calculus.",
    );
    let japanese = course_record(
        "japanese-103",
        "Japanese 103: Intermediate Vocabulary",
        CourseKind::Language,
        "Intermediate Japanese vocabulary & grammar via comprehensible input.",
    );
    (physics, japanese)
}

/// The seeded profile `key`.
fn profile_record(key: &str, name: &str, level: &str, interests: &Vec<&str>, created_at: Timestamp) -> (r: Profile)
    ensures
        profile_is(r, key@, name@, level@, strs(interests@), created_at),
{
    let r = Profile {
        id: id("profile", key),
        name: name.to_owned(),
        level: level.to_owned(),
        interests: owned_texts(interests),
        created_at,
    };
    assert(texts(r.interests@) =~= strs(interests@));
    r
}

/// The instant `days` whole days before `t`.
fn days_earlier(t: Timestamp, days: i64) -> (r: Timestamp)
    requires
        0 <= days <= 36500,
        t.secs >= i64::MIN + days * 86400,
    ensures
        r == days_before(t, days as int),
{
    Timestamp { secs: t.secs - days * 86400, nanos: t.nanos }
}

/// The three seeded profiles, one per comprehension tier, created 30, 20
/// and 10 days before `now`.
pub fn seed_profiles(now: Timestamp) -> (r: Vec<Profile>)
    requires
        now.secs >= i64::MIN + 30 * 86400,
    ensures
        r@.len() == 3,
        profile_is(
            r@[0],
            "beginner"@,
            "Aiko (Beginner)"@,
            "beginner"@,
            seq!["language"@, "travel"@, "cooking"@],
            days_before(now, 30),
        ),
        profile_is(
            r@[1],
            "intermediate"@,
            "Ben (Intermediate)"@,
            "intermediate"@,
            seq!["physics"@, "mechanics"@, "space"@],
            days_before(now, 20),
        ),
        profile_is(
            r@[2],
            "advanced"@,
            "Chen (Advanced)"@,
            "advanced"@,
            seq!["calculus"@, "grammar"@, "physics"@],
            days_before(now, 10),
        ),
{
    let mut r: Vec<Profile> = Vec::new();
    let i: Vec<&str> = vec!["language", "travel", "cooking"];
    assert(strs(i@) =~= seq!["language"@, "travel"@, "cooking"@]);
    r.push(profile_record("beginner", "Aiko (Beginner)", "beginner", &i, days_earlier(now, 30)));
    let i: Vec<&str> = vec!["physics", "mechanics", "space"];
    assert(strs(i@) =~= seq!["physics"@, "mechanics"@, "space"@]);
    r.push(profile_record("intermediate", "Ben (Intermediate)", "intermediate", &i, days_earlier(now, 20)));
    let i: Vec<&str> = vec!["calculus", "grammar", "physics"];
    assert(strs(i@) =~= seq!["calculus"@, "grammar"@, "physics"@]);
    r.push(profile_record("advanced", "Chen (Advanced)", "advanced", &i, days_earlier(now, 10)));
    r
}

/// The concepts of the two seeded courses: those of `p` (physics) first,
/// then those of `j` (Japanese), each course in curriculum order.
pub fn seed_concepts(p: &Course, j: &Course) -> (r: Vec<Concept>)
    ensures
        r@.len() == 12,
        concept_is(r@[0], *p, "limits"@, "Limits"@, Some("Foundation of calculus"@), 1, seq![]),
        concept_is(r@[1], *p, "derivatives"@, "Derivatives"@, Some("Rate of change"@), 2, seq!["limits"@]),
        concept_is(r@[2], *p, "lhopital"@, "L'Hopital's Rule"@, Some("Indeterminate forms"@), 3, seq!["limits"@, "derivatives"@]),
        concept_is(r@[3], *p, "kinematics"@, "Kinematics"@, Some("Motion equations"@), 4, seq!["derivatives"@]),
        concept_is(r@[4], *p, "newton2"@, "Newton's Second Law"@, Some("F = ma"@), 5, seq!["kinematics"@]),
        concept_is(r@[5], *p, "energy"@, "Work & Energy"@, Some("Work-energy theorem"@), 6, seq!["newton2"@]),
        concept_is(r@[6], *j, "mizu"@, "水 (mizu)"@, Some("water"@), 1, seq![]),
        concept_is(r@[7], *j, "taberu"@, "食べる (taberu)"@, Some("to eat"@), 2, seq![]),
        concept_is(r@[8], *j, "iku"@, "行く (iku)"@, Some("to go"@), 3, seq![]),
        concept_is(r@[9], *j, "te-form"@, "て-form"@, Some("connective verb form"@), 4, seq!["taberu"@, "iku"@]),
        concept_is(r@[10], *j, "tara"@, "たら (conditional)"@, Some("if/when"@), 5, seq!["te-form"@]),
        concept_is(r@[11], *j, "keigo"@, "敬語 (keigo)"@, Some("polite/honorific speech"@), 6, seq!["te-form"@]),
{
    let mut r: Vec<Concept> = Vec::new();
    let ps: Vec<&str> = vec![];
    assert(strs(ps@) =~= seq![]);
    r.push(concept(p, "limits", "Limits", Some("Foundation of calculus"), 1, &ps));
    let ps: Vec<&str> = vec!["limits"];
    assert(strs(ps@) =~= seq!["limits"@]);
    r.push(concept(p, "derivatives", "Derivatives", Some("Rate of change"), 2, &ps));
    let ps: Vec<&str> = vec!["limits", "derivatives"];
    assert(strs(ps@) =~= seq!["limits"@, "derivatives"@]);
    r.push(concept(p, "lhopital", "L'Hopital's Rule", Some("Indeterminate forms"), 3, &ps));
    let ps: Vec<&str> = vec!["derivatives"];
    assert(strs(ps@) =~= seq!["derivatives"@]);
    r.push(concept(p, "kinematics", "Kinematics", Some("Motion equations"), 4, &ps));
    let ps: Vec<&str> = vec!["kinematics"];
    assert(strs(ps@) =~= seq!["kinematics"@]);
    r.push(concept(p, "newton2", "Newton's Second Law", Some("F = ma"), 5, &ps));
    let ps: Vec<&str> = vec!["newton2"];
    assert(strs(ps@) =~= seq!["newton2"@]);
    r.push(concept(p, "energy", "Work & Energy", Some("Work-energy theorem"), 6, &ps));
    let ps: Vec<&str> = vec![];
    assert(strs(ps@) =~= seq![]);
    r.push(concept(j, "mizu", "水 (mizu)", Some("water"), 1, &ps));
    let ps: Vec<&str> = vec![];
    assert(strs(ps@) =~= seq![]);
    r.push(concept(j, "taberu", "食べる (taberu)", Some("to eat"), 2, &ps));
    let ps: Vec<&str> = vec![];
    assert(strs(ps@) =~= seq![]);
    r.push(concept(j, "iku", "行く (iku)", Some("to go"), 3, &ps));
    let ps: Vec<&str> = vec!["taberu", "iku"];
    assert(strs(ps@) =~= seq!["taberu"@, "iku"@]);
    r.push(concept(j, "te-form", "て-form", Some("connective verb form"), 4, &ps));
    let ps: Vec<&str> = vec!["te-form"];
    assert(strs(ps@) =~= seq!["te-form"@]);
    r.push(concept(j, "tara", "たら (conditional)", Some("if/when"), 5, &ps));
    let ps: Vec<&str> = vec!["te-form"];
    assert(strs(ps@) =~= seq!["te-form"@]);
    r.push(concept(j, "keigo", "敬語 (keigo)", Some("polite/honorific speech"), 6, &ps));
    r
}

/// The graded content items of the physics course `c`.
pub fn physics_items(c: &Course) -> (r: Vec<ContentItem>)
    ensures
        r@.len() == 6,
        item_is(r@[0], *c, "fc-limits"@, ItemKind::Flashcard, "Limit definition"@, "What does lim(x->a) f(x) = L mean?"@, "f(x) gets arbitrarily close to L as x approaches a."@, seq!["limits"@], seq!["calculus"@], 0x3fc999999999999au64, None),
        item_is(r@[1], *c, "fc-deriv"@, ItemKind::Flashcard, "Derivative as limit"@, "Define f'(x) as a limit."@, "f'(x) = lim(h->0) [f(x+h) - f(x)] / h"@, seq!["derivatives"@, "limits"@], seq!["calculus"@], 0x3fd6666666666666u64, None),
        item_is(r@[2], *c, "fc-lhopital"@, ItemKind::Flashcard, "L'Hopital's Rule"@, "When can you apply L'Hopital's Rule?"@, "For 0/0 or inf/inf indeterminate forms: lim f/g = lim f'/g'."@, seq!["lhopital"@, "derivatives"@, "limits"@], seq!["calculus"@], 0x3fe199999999999au64, None),
        item_is(r@[3], *c, "doc-kinematics"@, ItemKind::Document, "Kinematics primer"@, "A short reading connecting derivatives to velocity and acceleration."@, "Velocity is the derivative of position; acceleration is the derivative of velocity."@, seq!["kinematics"@, "derivatives"@], seq!["mechanics"@, "space"@], 0x3fdccccccccccccdu64, Some("https://example.com/kinematics"@)),
        item_is(r@[4], *c, "quiz-newton2"@, ItemKind::Quiz, "Newton's Second Law check"@, "If F = 10 N and m = 2 kg, what is a?"@, "a = F/m = 5 m/s^2"@, seq!["newton2"@, "kinematics"@], seq!["mechanics"@], 0x3fe0000000000000u64, None),
        item_is(r@[5], *c, "vid-energy"@, ItemKind::Video, "Work-energy theorem"@, "Video: how work relates to kinetic energy."@, "Net work equals the change in kinetic energy."@, seq!["energy"@, "newton2"@], seq!["mechanics"@, "space"@], 0x3fe4cccccccccccdu64, Some("https://youtube.com/watch?v=example"@)),
{
    let mut r: Vec<ContentItem> = Vec::new();
    let ks: Vec<&str> = vec!["limits"];
    let ts: Vec<&str> = vec!["calculus"];
    assert(strs(ks@) =~= seq!["limits"@] && strs(ts@) =~= seq!["calculus"@]);
    r.push(item(c, "fc-limits", ItemKind::Flashcard, "Limit definition", "What does lim(x->a) f(x) = L mean?", "f(x) gets arbitrarily close to L as x approaches a.", &ks, &ts, 0x3fc999999999999au64, None));
    let ks: Vec<&str> = vec!["derivatives", "limits"];
    let ts: Vec<&str> = vec!["calculus"];
    assert(strs(ks@) =~= seq!["derivatives"@, "limits"@] && strs(ts@) =~= seq!["calculus"@]);
    r.push(item(c, "fc-deriv", ItemKind::Flashcard, "Derivative as limit", "Define f'(x) as a limit.", "f'(x) = lim(h->0) [f(x+h) - f(x)] / h", &ks, &ts, 0x3fd6666666666666u64, None));
    let ks: Vec<&str> = vec!["lhopital", "derivatives", "limits"];
    let ts: Vec<&str> = vec!["calculus"];
    assert(strs(ks@) =~= seq!["lhopital"@, "derivatives"@, "limits"@] && strs(ts@) =~= seq!["calculus"@]);
    r.push(item(c, "fc-lhopital", ItemKind::Flashcard, "L'Hopital's Rule", "When can you apply L'Hopital's Rule?", "For 0/0 or inf/inf indeterminate forms: lim f/g = lim f'/g'.", &ks, &ts, 0x3fe199999999999au64, None));
    let ks: Vec<&str> = vec!["kinematics", "derivatives"];
    let ts: Vec<&str> = vec!["mechanics", "space"];
    assert(strs(ks@) =~= seq!["kinematics"@, "derivatives"@] && strs(ts@) =~= seq!["mechanics"@, "space"@]);
    r.push(item(c, "doc-kinematics", ItemKind::Document, "Kinematics primer", "A short reading connecting derivatives to velocity and acceleration.", "Velocity is the derivative of position; acceleration is the derivative of velocity.", &ks, &ts, 0x3fdccccccccccccdu64, Some("https://example.com/kinematics")));
    let ks: Vec<&str> = vec!["newton2", "kinematics"];
    let ts: Vec<&str> = vec!["mechanics"];
    assert(strs(ks@) =~= seq!["newton2"@, "kinematics"@] && strs(ts@) =~= seq!["mechanics"@]);
    r.push(item(c, "quiz-newton2", ItemKind::Quiz, "Newton's Second Law check", "If F = 10 N and m = 2 kg, what is a?", "a = F/m = 5 m/s^2", &ks, &ts, 0x3fe0000000000000u64, None));
    let ks: Vec<&str> = vec!["energy", "newton2"];
    let ts: Vec<&str> = vec!["mechanics", "space"];
    assert(strs(ks@) =~= seq!["energy"@, "newton2"@] && strs(ts@) =~= seq!["mechanics"@, "space"@]);
    r.push(item(c, "vid-energy", ItemKind::Video, "Work-energy theorem", "Video: how work relates to kinetic energy.", "Net work equals the change in kinetic energy.", &ks, &ts, 0x3fe4cccccccccccdu64, Some("https://youtube.com/watch?v=example")));
    r
}

/// The graded content items of the Japanese course `c`.
pub fn japanese_items(c: &Course) -> (r: Vec<ContentItem>)
    ensures
        r@.len() == 6,
        item_is(r@[0], *c, "fc-mizu"@, ItemKind::Flashcard, "水"@, "水"@, "water (mizu)"@, seq!["mizu"@], seq!["language"@, "cooking"@], 0x3fc3333333333333u64, None),
        item_is(r@[1], *c, "fc-taberu"@, ItemKind::Flashcard, "食べる"@, "食べる"@, "to eat (taberu)"@, seq!["taberu"@], seq!["language"@, "cooking"@], 0x3fc999999999999au64, None),
        item_is(r@[2], *c, "fc-iku"@, ItemKind::Flashcard, "行く"@, "行く"@, "to go (iku)"@, seq!["iku"@], seq!["language"@, "travel"@], 0x3fd0000000000000u64, None),
        item_is(r@[3], *c, "doc-teform"@, ItemKind::Document, "て-form usage"@, "水を飲んで、食べて、行きます。"@, "Drinking water, eating, and going. (chained actions with て-form)"@, seq!["te-form"@, "taberu"@, "iku"@], seq!["language"@, "grammar"@], 0x3fdccccccccccccdu64, Some("https://example.com/te-form"@)),
        item_is(r@[4], *c, "quiz-tara"@, ItemKind::Quiz, "たら conditional"@, "食べたら、行きます means?"@, "After eating, I will go."@, seq!["tara"@, "te-form"@], seq!["language"@, "grammar"@], 0x3fe199999999999au64, None),
        item_is(r@[5], *c, "vid-keigo"@, ItemKind::Video, "敬語 introduction"@, "Video introducing polite speech patterns."@, "召し上がる is the honorific form of 食べる."@, seq!["keigo"@, "te-form"@], seq!["language"@, "grammar"@], 0x3fe6666666666666u64, Some("https://youtube.com/watch?v=keigo"@)),
{
    let mut r: Vec<ContentItem> = Vec::new();
    let ks: Vec<&str> = vec!["mizu"];
    let ts: Vec<&str> = vec!["language", "cooking"];
    assert(strs(ks@) =~= seq!["mizu"@] && strs(ts@) =~= seq!["language"@, "cooking"@]);
    r.push(item(c, "fc-mizu", ItemKind::Flashcard, "水", "水", "water (mizu)", &ks, &ts, 0x3fc3333333333333u64, None));
    let ks: Vec<&str> = vec!["taberu"];
    let ts: Vec<&str> = vec!["language", "cooking"];
    assert(strs(ks@) =~= seq!["taberu"@] && strs(ts@) =~= seq!["language"@, "cooking"@]);
    r.push(item(c, "fc-taberu", ItemKind::Flashcard, "食べる", "食べる", "to eat (taberu)", &ks, &ts, 0x3fc999999999999au64, None));
    let ks: Vec<&str> = vec!["iku"];
    let ts: Vec<&str> = vec!["language", "travel"];
    assert(strs(ks@) =~= seq!["iku"@] && strs(ts@) =~= seq!["language"@, "travel"@]);
    r.push(item(c, "fc-iku", ItemKind::Flashcard, "行く", "行く", "to go (iku)", &ks, &ts, 0x3fd0000000000000u64, None));
    let ks: Vec<&str> = vec!["te-form", "taberu", "iku"];
    let ts: Vec<&str> = vec!["language", "grammar"];
    assert(strs(ks@) =~= seq!["te-form"@, "taberu"@, "iku"@] && strs(ts@) =~= seq!["language"@, "grammar"@]);
    r.push(item(c, "doc-teform", ItemKind::Document, "て-form usage", "水を飲んで、食べて、行きます。", "Drinking water, eating, and going. (chained actions with て-form)", &ks, &ts, 0x3fdccccccccccccdu64, Some("https://example.com/te-form")));
    let ks: Vec<&str> = vec!["tara", "te-form"];
    let ts: Vec<&str> = vec!["language", "grammar"];
    assert(strs(ks@) =~= seq!["tara"@, "te-form"@] && strs(ts@) =~= seq!["language"@, "grammar"@]);
    r.push(item(c, "quiz-tara", ItemKind::Quiz, "たら conditional", "食べたら、行きます means?", "After eating, I will go.", &ks, &ts, 0x3fe199999999999au64, None));
    let ks: Vec<&str> = vec!["keigo", "te-form"];
    let ts: Vec<&str> = vec!["language", "grammar"];
    assert(strs(ks@) =~= seq!["keigo"@, "te-form"@] && strs(ts@) =~= seq!["language"@, "grammar"@]);
    r.push(item(c, "vid-keigo", ItemKind::Video, "敬語 introduction", "Video introducing polite speech patterns.", "召し上がる is the honorific form of 食べる.", &ks, &ts, 0x3fe6666666666666u64, Some("https://youtube.com/watch?v=keigo")));
    r
}


/// Concepts with sequence number `q`.
pub open spec fn at_sequence(q: i32) -> spec_fn(ConceptView) -> bool {
    |c: ConceptView| c.sequence == q
}

/// Concepts of course `course_id` with sequence number `q`.
pub open spec fn of_course_at(course_id: u128, q: i32) -> spec_fn(ConceptView) -> bool {
    |c: ConceptView| c.course_id == course_id && c.sequence == q
}

/// `g` holds the concepts of course `course_id` among `all`, in curriculum
/// order: by sequence number, and concepts with equal numbers in their order
/// in `all`.
pub open spec fn curriculum_group(g: Seq<ConceptView>, all: Seq<ConceptView>, course_id: u128) -> bool {
    &&& sorted_by(g, sequence_le())
    &&& forall|q: i32| #[trigger] g.filter(at_sequence(q)) == all.filter(of_course_at(course_id, q))
}

/// `r` groups `all` by course: one group per course that has concepts,
/// course identifiers increasing, each group in curriculum order.
#[verifier::opaque]
pub open spec fn groups_by_course(r: Seq<(u128, Vec<Concept>)>, all: Seq<ConceptView>) -> bool {
    &&& forall|i: int, j: int| 0 <= i < j < r.len() ==> r[i].0 < r[j].0
    &&& forall|i: int| 0 <= i < r.len() ==> curriculum_group(concept_views((#[trigger] r[i]).1@), all, r[i].0)
    &&& forall|k: int| 0 <= k < all.len() ==> has_group(r, (#[trigger] all[k]).course_id)
    &&& forall|i: int| 0 <= i < r.len() ==> has_concept_of(all, (#[trigger] r[i]).0)
}

/// Some group of `r` is for course `course_id`.
pub open spec fn has_group(r: Seq<(u128, Vec<Concept>)>, course_id: u128) -> bool {
    exists|i: int| 0 <= i < r.len() && r[i].0 == course_id
}

/// Some concept of `all` belongs to course `course_id`.
pub open spec fn has_concept_of(all: Seq<ConceptView>, course_id: u128) -> bool {
    exists|k: int| 0 <= k < all.len() && all[k].course_id == course_id
}

/// Filtering a sequence none of whose elements qualifies gives nothing.
proof fn lemma_filter_none<A>(s: Seq<A>, pred: spec_fn(A) -> bool)
    requires
        forall|i: int| 0 <= i < s.len() ==> !pred(#[trigger] s[i]),
    ensures
        s.filter(pred) == Seq::<A>::empty(),
    decreases s.len(),
{
    reveal(Seq::filter);
    if s.len() > 0 {
        assert forall|i: int| 0 <= i < s.drop_last().len() implies !pred(#[trigger] s.drop_last()[i]) by {
            assert(s.drop_last()[i] == s[i]);
        }
        lemma_filter_none(s.drop_last(), pred);
        assert(!pred(s[s.len() - 1]));
    }
}

/// Inserting a concept after every concept with a sequence number at most
/// its own, and before the rest, appends it to the concepts of its number.
proof fn lemma_filter_curriculum_insert(g: Seq<ConceptView>, p: int, x: ConceptView, q: i32)
    requires
        0 <= p <= g.len(),
        forall|i: int| 0 <= i < p ==> (#[trigger] g[i]).sequence <= x.sequence,
        forall|i: int| p <= i < g.len() ==> (#[trigger] g[i]).sequence > x.sequence,
    ensures
        g.insert(p, x).filter(at_sequence(q)) == (if x.sequence == q {
            g.filter(at_sequence(q)).push(x)
        } else {
            g.filter(at_sequence(q))
        }),
{
    let a = g.subrange(0, p);
    let b = g.subrange(p, g.len() as int);
    assert(g =~= a + b);
    assert(g.insert(p, x) =~= a.push(x) + b);
    Seq::filter_distributes_over_add(a, b, at_sequence(q));
    Seq::filter_distributes_over_add(a.push(x), b, at_sequence(q));
    a.lemma_filter_push(x, at_sequence(q));
    if x.sequence == q {
        assert forall|i: int| 0 <= i < b.len() implies !at_sequence(q)(#[trigger] b[i]) by {
            assert(b[i] == g[p + i]);
        }
        lemma_filter_none(b, at_sequence(q));
        assert(a.filter(at_sequence(q)) + Seq::<ConceptView>::empty() =~= a.filter(at_sequence(q)));
        assert(a.filter(at_sequence(q)).push(x) + Seq::<ConceptView>::empty() =~= a.filter(at_sequence(q)).push(x));
    }
}

/// The position of the group of course `course_id`, if any.
fn group_index(r: &Vec<(u128, Vec<Concept>)>, course_id: u128) -> (res: Option<usize>)
    ensures
        match res {
            Some(i) => i < r@.len() && r@[i as int].0 == course_id,
            None => forall|i: int| 0 <= i < r@.len() ==> (#[trigger] r@[i]).0 != course_id,
        },
{
    let mut i: usize = 0;
    while i < r.len()
        invariant
            i <= r@.len(),
            forall|j: int| 0 <= j < i ==> (#[trigger] r@[j]).0 != course_id,
        decreases r.len() - i,
    {
        if r[i].0 == course_id {
            return Some(i);
        }
        i += 1;
    }
    None
}

/// The number of leading groups whose course identifier is below `course_id`.
fn group_point(r: &Vec<(u128, Vec<Concept>)>, course_id: u128) -> (p: usize)
    ensures
        p <= r@.len(),
        forall|i: int| 0 <= i < p ==> (#[trigger] r@[i]).0 < course_id,
        p < r@.len() ==> r@[p as int].0 >= course_id,
{
    let mut p: usize = 0;
    while p < r.len() && r[p].0 < course_id
        invariant
            p <= r@.len(),
            forall|i: int| 0 <= i < p ==> (#[trigger] r@[i]).0 < course_id,
        decreases r.len() - p,
    {
        p += 1;
    }
    p
}

/// The number of leading concepts of `g` whose sequence number is at most `sequence`.
fn curriculum_point(g: &Vec<Concept>, sequence: i32) -> (p: usize)
    ensures
        p <= g@.len(),
        forall|i: int| 0 <= i < p ==> (#[trigger] g@[i]).sequence <= sequence,
        p < g@.len() ==> g@[p as int].sequence > sequence,
{
    let mut p: usize = 0;
    while p < g.len() && g[p].sequence <= sequence
        invariant
            p <= g@.len(),
            forall|i: int| 0 <= i < p ==> (#[trigger] g@[i]).sequence <= sequence,
        decreases g.len() - p,
    {
        p += 1;
    }
    p
}

/// Adding concept `xv` to the existing group `i` of its course, at its
/// curriculum position `p`, groups the concepts seen so far plus `xv`.
proof fn lemma_add_to_group(
    before: Seq<(u128, Vec<Concept>)>,
    nr: Seq<(u128, Vec<Concept>)>,
    i: int,
    prev: Seq<ConceptView>,
    xv: ConceptView,
    p: int,
)
    requires
        groups_by_course(before, prev),
        0 <= i < before.len(),
        before[i].0 == xv.course_id,
        nr.len() == before.len(),
        forall|j: int| 0 <= j < nr.len() && j != i ==> nr[j] == before[j],
        nr[i].0 == before[i].0,
        0 <= p <= concept_views(before[i].1@).len(),
        concept_views(nr[i].1@) == concept_views(before[i].1@).insert(p, xv),
        forall|j: int| 0 <= j < p ==> (#[trigger] concept_views(before[i].1@)[j]).sequence <= xv.sequence,
        forall|j: int|
            p <= j < concept_views(before[i].1@).len() ==> (#[trigger] concept_views(before[i].1@)[j]).sequence
                > xv.sequence,
    ensures
        groups_by_course(nr, prev.push(xv)),
{
    reveal(groups_by_course);
    let key = xv.course_id;
    let gv = concept_views(before[i].1@);
    let all2 = prev.push(xv);
    assert(curriculum_group(gv, prev, key));
    assert forall|j: int| 0 <= j < p implies sequence_le()(#[trigger] gv[j], xv) by {}
    assert forall|j: int| p <= j < gv.len() implies sequence_le()(xv, #[trigger] gv[j]) by {}
    lemma_sorted_insert(gv, sequence_le(), p, xv);
    assert forall|q: i32| #[trigger] concept_views(nr[i].1@).filter(at_sequence(q)) == all2.filter(of_course_at(key, q)) by {
        lemma_filter_curriculum_insert(gv, p, xv, q);
        prev.lemma_filter_push(xv, of_course_at(key, q));
    }
    assert(curriculum_group(concept_views(nr[i].1@), all2, nr[i].0));
    assert forall|j: int| 0 <= j < nr.len() implies curriculum_group(concept_views((#[trigger] nr[j]).1@), all2, nr[j].0) by {
        if j != i {
            assert(nr[j] == before[j]);
            assert(curriculum_group(concept_views(before[j].1@), prev, before[j].0));
            assert(before[j].0 != key) by {
                if j < i {
                    assert(before[j].0 < before[i].0);
                } else {
                    assert(before[i].0 < before[j].0);
                }
            }
            assert forall|q: i32| #[trigger] concept_views(nr[j].1@).filter(at_sequence(q)) == all2.filter(
                of_course_at(nr[j].0, q),
            ) by {
                prev.lemma_filter_push(xv, of_course_at(nr[j].0, q));
            }
        }
    }
    assert forall|m: int| 0 <= m < all2.len() implies has_group(nr, (#[trigger] all2[m]).course_id) by {
        if m < prev.len() {
            assert(all2[m] == prev[m]);
            assert(has_group(before, prev[m].course_id));
            let j = choose|j: int| 0 <= j < before.len() && before[j].0 == prev[m].course_id;
            assert(nr[j].0 == before[j].0);
        } else {
            assert(nr[i].0 == key);
        }
    }
    assert forall|j: int| 0 <= j < nr.len() implies has_concept_of(all2, (#[trigger] nr[j]).0) by {
        assert(nr[j].0 == before[j].0);
        assert(has_concept_of(prev, before[j].0));
        let m = choose|m: int| 0 <= m < prev.len() && prev[m].course_id == before[j].0;
        assert(all2[m] == prev[m]);
    }
    assert forall|a: int, b: int| 0 <= a < b < nr.len() implies nr[a].0 < nr[b].0 by {
        assert(nr[a].0 == before[a].0 && nr[b].0 == before[b].0);
    }
}

/// A group holding only `xv` holds the concepts of its course among
/// `prev` plus `xv`, when `prev` has none of that course.
proof fn lemma_single_group(prev: Seq<ConceptView>, xv: ConceptView, g: Vec<Concept>)
    requires
        forall|m: int| 0 <= m < prev.len() ==> (#[trigger] prev[m]).course_id != xv.course_id,
        concept_views(g@) == seq![xv],
    ensures
        curriculum_group(concept_views(g@), prev.push(xv), xv.course_id),
{
    let course_id = xv.course_id;
    let all2 = prev.push(xv);
    assert forall|q: i32| #[trigger] concept_views(g@).filter(at_sequence(q)) == all2.filter(of_course_at(course_id, q)) by {
        assert forall|m: int| 0 <= m < prev.len() implies !of_course_at(course_id, q)(#[trigger] prev[m]) by {}
        lemma_filter_none(prev, of_course_at(course_id, q));
        prev.lemma_filter_push(xv, of_course_at(course_id, q));
        Seq::<ConceptView>::empty().lemma_filter_push(xv, at_sequence(q));
        assert(seq![xv] =~= Seq::<ConceptView>::empty().push(xv));
        lemma_filter_none(Seq::<ConceptView>::empty(), at_sequence(q));
    }
    assert(sorted_by(concept_views(g@), sequence_le()));
}

/// Inserting a group for a course with no group yet, after the groups of
/// smaller courses and before the rest, keeps course identifiers increasing.
proof fn lemma_new_group_order(
    before: Seq<(u128, Vec<Concept>)>,
    nr: Seq<(u128, Vec<Concept>)>,
    p: int,
    course_id: u128,
    g: Vec<Concept>,
)
    requires
        forall|i: int, j: int| 0 <= i < j < before.len() ==> before[i].0 < before[j].0,
        forall|j: int| 0 <= j < before.len() ==> (#[trigger] before[j]).0 != course_id,
        0 <= p <= before.len(),
        forall|j: int| 0 <= j < p ==> (#[trigger] before[j]).0 < course_id,
        p < before.len() ==> before[p].0 >= course_id,
        nr == before.insert(p, (course_id, g)),
    ensures
        forall|i: int, j: int| 0 <= i < j < nr.len() ==> nr[i].0 < nr[j].0,
{
    before.insert_ensures(p, (course_id, g));
    assert forall|a: int, b: int| 0 <= a < b < nr.len() implies nr[a].0 < nr[b].0 by {
        if a < p && b < p {
            assert(nr[a] == before[a] && nr[b] == before[b]);
        } else if a < p && b == p {
            assert(nr[a] == before[a]);
        } else if a < p {
            assert(nr[a] == before[a] && nr[b] == before[b - 1]);
            assert(before[p].0 != course_id);
            if p < b - 1 {
                assert(before[p].0 < before[b - 1].0);
            }
        } else if a == p {
            assert(nr[b] == before[b - 1]);
            assert(before[p].0 != course_id);
            if p < b - 1 {
                assert(before[p].0 < before[b - 1].0);
            }
        } else {
            assert(nr[a] == before[a - 1] && nr[b] == before[b - 1]);
        }
    }
}

/// Groups other than the new one keep holding their courses' concepts when
/// `xv`, of another course, is added.
proof fn lemma_other_groups_unchanged(
    before: Seq<(u128, Vec<Concept>)>,
    nr: Seq<(u128, Vec<Concept>)>,
    p: int,
    prev: Seq<ConceptView>,
    xv: ConceptView,
)
    requires
        forall|j: int|
            0 <= j < before.len() ==> curriculum_group(concept_views((#[trigger] before[j]).1@), prev, before[j].0),
        forall|j: int| 0 <= j < before.len() ==> (#[trigger] before[j]).0 != xv.course_id,
        0 <= p <= before.len(),
        nr.len() == before.len() + 1,
        forall|j: int| 0 <= j < nr.len() && j != p ==> #[trigger] nr[j] == before[if j < p { j } else { j - 1 }],
    ensures
        forall|j: int|
            0 <= j < nr.len() && j != p ==> curriculum_group(concept_views((#[trigger] nr[j]).1@), prev.push(xv), nr[j].0),
{
    let all2 = prev.push(xv);
    assert forall|j: int| 0 <= j < nr.len() && j != p implies curriculum_group(concept_views((#[trigger] nr[j]).1@), all2, nr[j].0) by {
        let bj = if j < p { j } else { j - 1 };
        assert(nr[j] == before[bj]);
        assert(curriculum_group(concept_views(before[bj].1@), prev, before[bj].0));
        assert forall|q: i32| #[trigger] concept_views(nr[j].1@).filter(at_sequence(q)) == all2.filter(
            of_course_at(nr[j].0, q),
        ) by {
            prev.lemma_filter_push(xv, of_course_at(nr[j].0, q));
        }
    }
}

/// Every concept seen so far plus `xv` has a group, and every group's
/// course has a concept, after the group of `xv` is added at `p`.
proof fn lemma_new_group_coverage(
    before: Seq<(u128, Vec<Concept>)>,
    nr: Seq<(u128, Vec<Concept>)>,
    p: int,
    prev: Seq<ConceptView>,
    xv: ConceptView,
)
    requires
        forall|k: int| 0 <= k < prev.len() ==> has_group(before, (#[trigger] prev[k]).course_id),
        forall|i: int| 0 <= i < before.len() ==> has_concept_of(prev, (#[trigger] before[i]).0),
        0 <= p <= before.len(),
        nr.len() == before.len() + 1,
        nr[p].0 == xv.course_id,
        forall|j: int| 0 <= j < nr.len() && j != p ==> #[trigger] nr[j] == before[if j < p { j } else { j - 1 }],
        forall|j: int| 0 <= j < before.len() ==> nr[if j < p { j } else { j + 1 }] == #[trigger] before[j],
    ensures
        forall|k: int| 0 <= k < prev.push(xv).len() ==> has_group(nr, (#[trigger] prev.push(xv)[k]).course_id),
        forall|i: int| 0 <= i < nr.len() ==> has_concept_of(prev.push(xv), (#[trigger] nr[i]).0),
{
    let all2 = prev.push(xv);
    assert forall|m: int| 0 <= m < all2.len() implies has_group(nr, (#[trigger] all2[m]).course_id) by {
        if m < prev.len() {
            assert(all2[m] == prev[m]);
            assert(has_group(before, prev[m].course_id));
            let j = choose|j: int| 0 <= j < before.len() && before[j].0 == prev[m].course_id;
            let nj = if j < p { j } else { j + 1 };
            assert(nr[nj] == before[j]);
        } else {
            assert(nr[p].0 == xv.course_id);
        }
    }
    assert forall|j: int| 0 <= j < nr.len() implies has_concept_of(all2, (#[trigger] nr[j]).0) by {
        if j == p {
            assert(all2[prev.len() as int] == xv);
        } else {
            let bj = if j < p { j } else { j - 1 };
            assert(nr[j] == before[bj]);
            assert(has_concept_of(prev, before[bj].0));
            let m = choose|m: int| 0 <= m < prev.len() && prev[m].course_id == before[bj].0;
            assert(all2[m] == prev[m]);
        }
    }
}

/// What `groups_by_course` says, clause by clause.
proof fn lemma_groups_unfold(r: Seq<(u128, Vec<Concept>)>, all: Seq<ConceptView>)
    requires
        groups_by_course(r, all),
    ensures
        forall|i: int, j: int| 0 <= i < j < r.len() ==> r[i].0 < r[j].0,
        forall|i: int| 0 <= i < r.len() ==> curriculum_group(concept_views((#[trigger] r[i]).1@), all, r[i].0),
        forall|k: int| 0 <= k < all.len() ==> has_group(r, (#[trigger] all[k]).course_id),
        forall|i: int| 0 <= i < r.len() ==> has_concept_of(all, (#[trigger] r[i]).0),
{
    reveal(groups_by_course);
}

/// `groups_by_course` from its clauses.
proof fn lemma_groups_fold(r: Seq<(u128, Vec<Concept>)>, all: Seq<ConceptView>)
    requires
        forall|i: int, j: int| 0 <= i < j < r.len() ==> r[i].0 < r[j].0,
        forall|i: int| 0 <= i < r.len() ==> curriculum_group(concept_views((#[trigger] r[i]).1@), all, r[i].0),
        forall|k: int| 0 <= k < all.len() ==> has_group(r, (#[trigger] all[k]).course_id),
        forall|i: int| 0 <= i < r.len() ==> has_concept_of(all, (#[trigger] r[i]).0),
    ensures
        groups_by_course(r, all),
{
    reveal(groups_by_course);
}

/// Adding a new group holding only `xv`, for a course with no group yet, at
/// the position `p` that keeps course identifiers increasing, groups the
/// concepts seen so far plus `xv`.
proof fn lemma_add_new_group(
    before: Seq<(u128, Vec<Concept>)>,
    nr: Seq<(u128, Vec<Concept>)>,
    p: int,
    prev: Seq<ConceptView>,
    xv: ConceptView,
    g: Vec<Concept>,
)
    requires
        groups_by_course(before, prev),
        forall|j: int| 0 <= j < before.len() ==> (#[trigger] before[j]).0 != xv.course_id,
        0 <= p <= before.len(),
        forall|j: int| 0 <= j < p ==> (#[trigger] before[j]).0 < xv.course_id,
        p < before.len() ==> before[p].0 >= xv.course_id,
        nr == before.insert(p, (xv.course_id, g)),
        concept_views(g@) == seq![xv],
    ensures
        groups_by_course(nr, prev.push(xv)),
{
    lemma_groups_unfold(before, prev);
    let course_id = xv.course_id;
    before.insert_ensures(p, (course_id, g));
    assert forall|j: int| 0 <= j < nr.len() && j != p implies #[trigger] nr[j] == before[if j < p { j } else { j - 1 }] by {}
    assert forall|j: int| 0 <= j < before.len() implies nr[if j < p { j } else { j + 1 }] == #[trigger] before[j] by {}
    assert forall|m: int| 0 <= m < prev.len() implies (#[trigger] prev[m]).course_id != course_id by {
        assert(has_group(before, prev[m].course_id));
    }
    lemma_single_group(prev, xv, g);
    lemma_other_groups_unchanged(before, nr, p, prev, xv);
    lemma_new_group_coverage(before, nr, p, prev, xv);
    lemma_new_group_order(before, nr, p, course_id, g);
    assert forall|j: int| 0 <= j < nr.len() implies curriculum_group(concept_views((#[trigger] nr[j]).1@), prev.push(xv), nr[j].0) by {
        if j == p {
            assert(nr[p] == (course_id, g));
        }
    }
    lemma_groups_fold(nr, prev.push(xv));
}

/// The concepts grouped by course: course identifiers increasing, each
/// group in curriculum order (by sequence number; equal numbers in the
/// order of `concepts`).
pub fn concepts_by_course(concepts: &Vec<Concept>) -> (r: Vec<(u128, Vec<Concept>)>)
    ensures
        groups_by_course(r@, concept_views(concepts@)),
{
    let ghost all = concept_views(concepts@);
    let mut r: Vec<(u128, Vec<Concept>)> = Vec::new();
    let mut k: usize = 0;
    assert(groups_by_course(r@, all.take(0))) by {
        reveal(groups_by_course);
    }
    while k < concepts.len()
        invariant
            all == concept_views(concepts@),
            k <= concepts@.len(),
            groups_by_course(r@, all.take(k as int)),
        decreases concepts.len() - k,
    {
        let ghost prev = all.take(k as int);
        let ghost xv = all[k as int];
        assert(all.take(k + 1) =~= prev.push(xv));
        assert(xv == concepts@[k as int]@);
        let x = concepts[k].clone();
        let ghost before = r@;
        match group_index(&r, x.course_id) {
            Some(i) => {
                let (key, mut g) = r.remove(i);
                let ghost gv = concept_views(g@);
                let p = curriculum_point(&g, x.sequence);
                proof {
                    assert(gv == concept_views(before[i as int].1@));
                    assert(sorted_by(gv, sequence_le())) by {
                        reveal(groups_by_course);
                        assert(curriculum_group(concept_views(before[i as int].1@), prev, before[i as int].0));
                    }
                    assert forall|j: int| 0 <= j < p implies (#[trigger] gv[j]).sequence <= xv.sequence by {
                        assert(gv[j] == g@[j]@);
                    }
                    assert forall|j: int| p <= j < gv.len() implies (#[trigger] gv[j]).sequence > xv.sequence by {
                        assert(gv[j] == g@[j]@);
                        assert(gv[p as int] == g@[p as int]@);
                        if j > p {
                            assert(sequence_le()(gv[p as int], gv[j]));
                        }
                    }
                }
                g.insert(p, x);
                proof {
                    assert(concept_views(g@) =~= gv.insert(p as int, xv));
                }
                r.insert(i, (key, g));
                proof {
                    assert(r@ =~= before.update(i as int, (key, g)));
                    lemma_add_to_group(before, r@, i as int, prev, xv, p as int);
                }
            },
            None => {
                let p = group_point(&r, x.course_id);
                let course_id = x.course_id;
                let mut g: Vec<Concept> = Vec::new();
                g.push(x);
                proof {
                    assert(concept_views(g@) =~= seq![xv]);
                }
                r.insert(p, (course_id, g));
                proof {
                    lemma_add_new_group(before, r@, p as int, prev, xv, g);
                }
            },
        }
        k += 1;
    }
    assert(all.take(concepts@.len() as int) =~= all);
    r
}

} // verus!
