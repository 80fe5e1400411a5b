use scaffold::fsrs::MemoryState;
use scaffold::models::{Concept, ContentItem, Course, CourseKind, ItemKind, Profile, Timestamp};
use scaffold::repo::{freshness_record, MemoryRepo, RepoError};

fn at(secs: i64) -> Timestamp {
    Timestamp { secs, nanos: 0 }
}

fn profile(id: u128, name: &str, created: i64) -> Profile {
    Profile {
        id,
        name: name.to_string(),
        level: "beginner".to_string(),
        interests: vec!["physics".to_string()],
        created_at: at(created),
    }
}

fn course(id: u128, slug: &str) -> Course {
    Course {
        id,
        slug: slug.to_string(),
        title: format!("Course {slug}"),
        kind: CourseKind::Academic,
        description: String::new(),
    }
}

fn concept(id: u128, course_id: u128, sequence: i32) -> Concept {
    Concept {
        id,
        course_id,
        name: format!("c{id}"),
        detail: None,
        sequence,
        prerequisites: vec![],
    }
}

fn item(id: u128, course_id: u128) -> ContentItem {
    ContentItem {
        id,
        course_id,
        kind: ItemKind::Flashcard,
        title: format!("item {id}"),
        front: "front".to_string(),
        back: "back".to_string(),
        concept_ids: vec![1, 2],
        tags: vec!["language".to_string()],
        difficulty_bits: 0.2f64.to_bits(),
        source_url: None,
    }
}

#[test]
fn profile_crud() {
    let mut r = MemoryRepo::new();
    let p = Profile {
        id: uuid::Uuid::new_v4().as_u128(),
        name: "Test".into(),
        level: "beginner".into(),
        interests: vec!["physics".into()],
        created_at: at(1_700_000_000),
    };
    r.create_profile(p.clone()).unwrap();
    assert_eq!(r.list_profiles().unwrap().len(), 1);
    assert_eq!(r.get_profile(p.id).unwrap().name, "Test");
}

#[test]
fn missing_profile_errors() {
    let r = MemoryRepo::new();
    assert!(matches!(r.get_profile(uuid::Uuid::new_v4().as_u128()), Err(RepoError::NotFound)));
}

#[test]
fn create_profile_replaces_same_id() {
    let mut r = MemoryRepo::new();
    r.create_profile(profile(7, "first", 10)).unwrap();
    let back = r.create_profile(profile(7, "second", 5)).unwrap();
    assert_eq!(back.name, "second");
    let all = r.list_profiles().unwrap();
    assert_eq!(all.len(), 1);
    assert_eq!(r.get_profile(7).unwrap().name, "second");
}

#[test]
fn profiles_are_listed_oldest_first() {
    let mut r = MemoryRepo::new();
    r.insert_profile(profile(1, "c", 30));
    r.insert_profile(profile(2, "a", 10));
    r.insert_profile(profile(3, "b", 20));
    r.insert_profile(Profile { created_at: Timestamp { secs: 10, nanos: 5 }, ..profile(4, "a2", 0) });
    let names: Vec<String> = r.list_profiles().unwrap().into_iter().map(|p| p.name).collect();
    assert_eq!(names, vec!["a", "a2", "b", "c"]);
}

#[test]
fn courses_are_listed_by_slug_and_found_by_slug() {
    let mut r = MemoryRepo::new();
    r.insert_course(course(1, "physics-201")).unwrap();
    r.insert_course(course(2, "japanese-103")).unwrap();
    r.insert_course(course(3, "art-100")).unwrap();
    let slugs: Vec<String> = r.list_courses().unwrap().into_iter().map(|c| c.slug).collect();
    assert_eq!(slugs, vec!["art-100", "japanese-103", "physics-201"]);
    assert_eq!(r.get_course_by_slug("japanese-103").unwrap().id, 2);
    assert!(matches!(r.get_course_by_slug("nope"), Err(RepoError::NotFound)));
    // inserting the same course again changes nothing
    r.insert_course(course(2, "japanese-103")).unwrap();
    assert_eq!(r.list_courses().unwrap().len(), 3);
}

#[test]
fn concepts_come_in_curriculum_order() {
    let mut r = MemoryRepo::new();
    r.insert_concept(concept(10, 1, 3)).unwrap();
    r.insert_concept(concept(11, 1, 1)).unwrap();
    r.insert_concept(concept(12, 2, 2)).unwrap();
    r.insert_concept(concept(13, 1, 2)).unwrap();
    r.insert_concept(concept(14, 1, 1)).unwrap();
    let ids: Vec<u128> = r.concepts_for_course(1).unwrap().into_iter().map(|c| c.id).collect();
    assert_eq!(ids, vec![11, 14, 13, 10]);
    let other: Vec<u128> = r.concepts_for_course(2).unwrap().into_iter().map(|c| c.id).collect();
    assert_eq!(other, vec![12]);
    assert!(r.concepts_for_course(3).unwrap().is_empty());
}

#[test]
fn items_filter_by_course_and_get_finds_first() {
    let mut r = MemoryRepo::new();
    r.insert_item(item(1, 100)).unwrap();
    r.insert_item(item(2, 200)).unwrap();
    r.insert_item(item(3, 100)).unwrap();
    let ids: Vec<u128> = r.items_for_course(100).unwrap().into_iter().map(|i| i.id).collect();
    assert_eq!(ids, vec![1, 3]);
    let it = r.get_item(2).unwrap();
    assert_eq!(it.course_id, 200);
    assert_eq!(it.concept_ids, vec![1, 2]);
    assert_eq!(f64::from_bits(it.difficulty_bits), 0.2);
    assert!(matches!(r.get_item(9), Err(RepoError::NotFound)));
}

#[test]
fn freshness_upsert_then_read() {
    let mut r = MemoryRepo::new();
    let m = MemoryState::default();
    let rec = freshness_record(1, 2, m, None, 0.5f64.to_bits(), at(100));
    r.upsert_freshness(rec).unwrap();
    assert_eq!(r.get_freshness(1, 2).unwrap(), Some(rec));
    assert_eq!(r.get_freshness(1, 3).unwrap(), None);
    let newer = freshness_record(1, 2, m, Some(at(200)), 0.9f64.to_bits(), at(150));
    r.upsert_freshness(newer).unwrap();
    r.upsert_freshness(freshness_record(1, 5, m, None, 0, at(1))).unwrap();
    r.upsert_freshness(freshness_record(2, 2, m, None, 0, at(1))).unwrap();
    assert_eq!(r.get_freshness(1, 2).unwrap(), Some(newer));
    let mine = r.freshness_for_profile(1).unwrap();
    assert_eq!(mine.len(), 2);
    assert!(mine.iter().all(|f| f.profile_id == 1));
    assert!(mine.contains(&newer));
}

#[test]
fn events_are_listed_per_profile_in_order() {
    let mut r = MemoryRepo::new();
    r.record_event(1, 10, 100, 3, 0.7f64.to_bits(), at(5)).unwrap();
    r.record_event(2, 10, 100, 1, 0, at(6)).unwrap();
    r.record_event(1, 11, 101, 4, 0, at(7)).unwrap();
    let ev = r.events_for_profile(1).unwrap();
    assert_eq!(ev.len(), 2);
    assert_eq!(ev[0].concept_id, 10);
    assert_eq!(ev[1].rating, 4);
    assert!(r.events_for_profile(3).unwrap().is_empty());
}

#[test]
fn seeding_twice_stores_each_record_once() {
    let mut r = MemoryRepo::new();
    let (p, j) = scaffold::seed::seed_courses();
    for _ in 0..2 {
        r.insert_course(p.clone()).unwrap();
        r.insert_course(j.clone()).unwrap();
        for c in scaffold::seed::seed_concepts(&p, &j) {
            r.insert_concept(c).unwrap();
        }
        for it in scaffold::seed::physics_items(&p).into_iter().chain(scaffold::seed::japanese_items(&j)) {
            r.insert_item(it).unwrap();
        }
        for pr in scaffold::seed::seed_profiles(at(10_000_000)) {
            r.create_profile(pr).unwrap();
        }
    }
    assert_eq!(r.list_courses().unwrap().len(), 2);
    assert_eq!(r.list_profiles().unwrap().len(), 3);
    assert_eq!(r.concepts_for_course(p.id).unwrap().len(), 6);
    assert_eq!(r.concepts_for_course(j.id).unwrap().len(), 6);
    assert_eq!(r.items_for_course(p.id).unwrap().len(), 6);
    assert_eq!(r.items_for_course(j.id).unwrap().len(), 6);
}

#[test]
fn concept_with_stored_id_is_ignored() {
    let mut r = MemoryRepo::new();
    let (p, j) = scaffold::seed::seed_courses();
    let cs = scaffold::seed::seed_concepts(&p, &j);
    r.insert_concept(cs[0].clone()).unwrap();
    let mut again = cs[0].clone();
    again.sequence = 99;
    r.insert_concept(again).unwrap();
    let got = r.concepts_for_course(p.id).unwrap();
    assert_eq!(got.len(), 1);
    assert_eq!(got[0].sequence, 1);
}
