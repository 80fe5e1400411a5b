use scaffold::config::Settings;
use scaffold::fsrs::{bounded_interval, MemoryState, Rating};
use scaffold::handlers::{activity, count_by_day, error_status, NewProfile};
use scaffold::models::{
    course_kind_label, item_kind_label, parse_course_kind, parse_item_kind, ContentItem, CourseKind, EventRow,
    ItemKind, Timestamp,
};
use scaffold::nplus1::{count_interest_matches, items_to_candidates};
use scaffold::repo::RepoError;
use scaffold::seed::{self, SEED_NAMESPACE};
use scaffold::text::{contains_chars, eq_ignore_ascii_case, text_eq, text_le_exec};
use scaffold::time::utc_day;

#[test]
fn rating_parses_one_to_four_only() {
    assert_eq!(Rating::from_i16(1), Some(Rating::Again));
    assert_eq!(Rating::from_i16(2), Some(Rating::Hard));
    assert_eq!(Rating::from_i16(3), Some(Rating::Good));
    assert_eq!(Rating::from_i16(4), Some(Rating::Easy));
    assert_eq!(Rating::from_i16(0), None);
    assert_eq!(Rating::from_i16(5), None);
    assert_eq!(Rating::from_i16(-1), None);
    for r in [Rating::Again, Rating::Hard, Rating::Good, Rating::Easy] {
        assert_eq!(Rating::from_i16(r.value()), Some(r));
    }
}

#[test]
fn first_review_counts_and_lapses() {
    let now = Timestamp { secs: 1000, nanos: 0 };
    let s0 = MemoryState::default();
    assert!(s0.is_first_review());
    let s1 = s0.reviewed(Rating::Again, now, 1, 2);
    assert_eq!((s1.reps, s1.lapses), (1, 1));
    assert_eq!(s1.last_review, Some(now));
    assert!(!s1.is_first_review());
    let s2 = s1.reviewed(Rating::Good, now, 3, 4);
    assert_eq!((s2.reps, s2.lapses), (2, 1));
    let s3 = s2.reviewed(Rating::Again, now, 5, 6);
    assert_eq!((s3.reps, s3.lapses), (3, 2));
    assert_eq!((s3.difficulty_bits, s3.stability_bits), (5, 6));
}

#[test]
fn intervals_are_bounded() {
    assert_eq!(bounded_interval(0, 36500), 1);
    assert_eq!(bounded_interval(-4, 36500), 1);
    assert_eq!(bounded_interval(17, 36500), 17);
    assert_eq!(bounded_interval(40000, 36500), 36500);
}

#[test]
fn kinds_roundtrip_through_labels() {
    for k in [CourseKind::Language, CourseKind::Academic] {
        assert_eq!(parse_course_kind(course_kind_label(k).to_string()), k);
    }
    for k in [ItemKind::Flashcard, ItemKind::Document, ItemKind::Video, ItemKind::Quiz] {
        assert_eq!(parse_item_kind(item_kind_label(k)), k);
    }
    assert_eq!(parse_course_kind("unknown".to_string()), CourseKind::Academic);
    assert_eq!(parse_item_kind("podcast"), ItemKind::Quiz);
}

#[test]
fn text_order_is_string_order() {
    let words = ["", "a", "ab", "b", "B", "é", "水", "japanese-103", "physics-201"];
    for x in words {
        for y in words {
            assert_eq!(text_le_exec(x, y), x <= y, "{x} vs {y}");
            assert_eq!(text_eq(x, y), x == y);
            assert_eq!(eq_ignore_ascii_case(x, y), x.eq_ignore_ascii_case(y));
        }
    }
    let hay: Vec<char> = "derivatives".chars().collect();
    assert!(contains_chars(&hay, &"vat".chars().collect()));
    assert!(contains_chars(&hay, &vec![]));
    assert!(!contains_chars(&hay, &"vet".chars().collect()));
}

#[test]
fn interest_matches_ignore_ascii_case() {
    let tags = vec!["Physics".to_string(), "cooking".to_string(), "SPACE".to_string()];
    let interests = vec!["physics".to_string(), "space".to_string()];
    assert_eq!(count_interest_matches(&tags, &interests), 2);
    assert_eq!(count_interest_matches(&tags, &vec![]), 0);
}

#[test]
fn candidates_copy_items() {
    let it = ContentItem {
        id: 5,
        course_id: 1,
        kind: ItemKind::Video,
        title: "t".into(),
        front: "f".into(),
        back: "b".into(),
        concept_ids: vec![7, 8],
        tags: vec!["x".into()],
        difficulty_bits: 0.45f64.to_bits(),
        source_url: Some("https://example.com".into()),
    };
    let c = items_to_candidates(&vec![it]);
    assert_eq!(c.len(), 1);
    assert_eq!(c[0].id, 5);
    assert_eq!(c[0].concept_ids, vec![7, 8]);
    assert_eq!(c[0].tags, vec!["x"]);
    assert_eq!(f64::from_bits(c[0].difficulty_bits), 0.45);
}

#[test]
fn settings_defaults_and_mock_switch() {
    let s = Settings::from_values(None, None, None, None, None, None, None, None, None);
    assert_eq!(s.bind_addr, "0.0.0.0:8080");
    assert_eq!(s.database_url, None);
    assert!(s.use_mocks);
    assert_eq!(s.anki_endpoint, "http://localhost:8765");
    assert_eq!(s.ai_endpoint, "https://api.openai.com/v1/chat/completions");
    assert_eq!(s.ai_model, "gpt-4o-mini");
    assert_eq!(s.scraper_url, "http://localhost:9200/scrape");
    let t = Settings::from_values(
        Some("127.0.0.1:9".into()),
        Some(String::new()),
        Some("0".into()),
        None,
        None,
        Some("key".into()),
        Some("".into()),
        None,
        None,
    );
    assert_eq!(t.bind_addr, "127.0.0.1:9");
    assert_eq!(t.database_url, None);
    assert!(!t.use_mocks);
    assert_eq!(t.ai_api_key.as_deref(), Some("key"));
    assert_eq!(t.ai_model, "gpt-4o-mini");
    assert!(Settings::from_values(None, None, Some("true".into()), None, None, None, None, None, None).use_mocks);
    assert!(Settings::from_values(None, None, Some("1".into()), None, None, None, None, None, None).use_mocks);
}

#[test]
fn error_statuses() {
    assert_eq!(error_status(&RepoError::NotFound), 404);
    assert_eq!(error_status(&RepoError::Store("down".into())), 500);
}

#[test]
fn new_profile_becomes_profile() {
    let body = NewProfile { name: "Aiko".into(), level: "beginner".into(), interests: vec!["travel".into()] };
    let p = body.into_profile(42, Timestamp { secs: 3, nanos: 4 });
    assert_eq!((p.id, p.name.as_str(), p.level.as_str()), (42, "Aiko", "beginner"));
    assert_eq!(p.interests, vec!["travel"]);
}

#[test]
fn days_are_tallied_in_order() {
    let dates: Vec<String> =
        ["2024-05-02", "2024-05-01", "2024-05-02", "2023-12-31"].iter().map(|s| s.to_string()).collect();
    let days = count_by_day(&dates);
    let got: Vec<(String, usize)> = days.into_iter().map(|d| (d.date, d.count)).collect();
    assert_eq!(
        got,
        vec![("2023-12-31".to_string(), 1), ("2024-05-01".to_string(), 1), ("2024-05-02".to_string(), 2)]
    );
    assert!(count_by_day(&vec![]).is_empty());
}

#[test]
fn activity_groups_events_by_utc_day() {
    let ev = |secs: i64| EventRow {
        profile_id: 1,
        concept_id: 2,
        item_id: 3,
        rating: 3,
        success_weight_bits: 0,
        created_at: Timestamp { secs, nanos: 0 },
    };
    let events = vec![ev(0), ev(86_399), ev(86_400), ev(1_700_000_000)];
    let days = activity(&events);
    let got: Vec<(String, usize)> = days.into_iter().map(|d| (d.date, d.count)).collect();
    assert_eq!(
        got,
        vec![("1970-01-01".to_string(), 2), ("1970-01-02".to_string(), 1), ("2023-11-14".to_string(), 1)]
    );
}

#[test]
fn utc_day_formats_dates() {
    assert_eq!(utc_day(Timestamp { secs: 0, nanos: 0 }), Some("1970-01-01".to_string()));
    assert_eq!(utc_day(Timestamp { secs: i64::MAX, nanos: 0 }), None);
}

#[test]
fn seed_ids_are_name_based() {
    let expected = uuid::Uuid::new_v5(&uuid::Uuid::from_u128(SEED_NAMESPACE), b"profile:beginner").as_u128();
    assert_eq!(seed::id("profile", "beginner"), expected);
    assert_ne!(seed::id("profile", "beginner"), seed::id("profile", "advanced"));
    assert_eq!(seed::id("profile", "beginner"), seed::id("profile", "beginner"));
}

#[test]
fn seeded_concepts_and_items_use_course_ids() {
    let course = scaffold::models::Course {
        id: seed::id("course", "physics-201"),
        slug: "physics-201".into(),
        title: "Physics".into(),
        kind: CourseKind::Academic,
        description: String::new(),
    };
    let c = seed::concept(&course, "lhopital", "L'Hopital's Rule", Some("Indeterminate forms"), 3, &vec![
        "limits",
        "derivatives",
    ]);
    assert_eq!(c.id, seed::id("concept", "physics-201:lhopital"));
    assert_eq!(c.prerequisites, vec![seed::id("concept", "physics-201:limits"), seed::id(
        "concept",
        "physics-201:derivatives",
    )]);
    assert_eq!(c.detail.as_deref(), Some("Indeterminate forms"));
    let it = seed::item(
        &course,
        "fc-limits",
        ItemKind::Flashcard,
        "Limit definition",
        "front",
        "back",
        &vec!["limits"],
        &vec!["calculus"],
        0.2f64.to_bits(),
        None,
    );
    assert_eq!(it.id, seed::id("item", "physics-201:fc-limits"));
    assert_eq!(it.concept_ids, vec![seed::id("concept", "physics-201:limits")]);
    assert_eq!(it.tags, vec!["calculus"]);
    assert_eq!(it.course_id, course.id);
}

#[test]
fn concepts_group_by_course_in_curriculum_order() {
    let mk = |id: u128, course_id: u128, sequence: i32| scaffold::models::Concept {
        id,
        course_id,
        name: format!("c{id}"),
        detail: None,
        sequence,
        prerequisites: vec![],
    };
    let input = vec![mk(1, 20, 2), mk(2, 10, 5), mk(3, 20, 1), mk(4, 10, 5), mk(5, 20, 2), mk(6, 10, 1)];
    let groups = seed::concepts_by_course(&input);
    let shape: Vec<(u128, Vec<u128>)> =
        groups.into_iter().map(|(c, g)| (c, g.into_iter().map(|x| x.id).collect())).collect();
    assert_eq!(shape, vec![(10, vec![6, 2, 4]), (20, vec![3, 1, 5])]);
    assert!(seed::concepts_by_course(&vec![]).is_empty());
}

#[test]
fn seeded_courses_and_concepts() {
    let (p, j) = seed::seed_courses();
    assert_eq!(p.slug, "physics-201");
    assert_eq!(p.id, seed::id("course", "physics-201"));
    assert_eq!(j.title, "Japanese 103: Intermediate Vocabulary");
    assert!(matches!(j.kind, CourseKind::Language));
    let cs = seed::seed_concepts(&p, &j);
    assert_eq!(cs.len(), 12);
    assert_eq!(cs[2].name, "L'Hopital's Rule");
    assert_eq!(cs[2].prerequisites, vec![cs[0].id, cs[1].id]);
    assert_eq!(cs[9].course_id, j.id);
    assert_eq!(cs[9].prerequisites, vec![cs[7].id, cs[8].id]);
    assert_eq!(cs[11].detail.as_deref(), Some("polite/honorific speech"));
}

#[test]
fn seeded_items_carry_their_grades() {
    let (p, j) = seed::seed_courses();
    let ph = seed::physics_items(&p);
    assert_eq!(ph.len(), 6);
    assert_eq!(ph[0].difficulty_bits, 0.2f64.to_bits());
    assert_eq!(ph[5].difficulty_bits, 0.65f64.to_bits());
    assert_eq!(ph[3].source_url.as_deref(), Some("https://example.com/kinematics"));
    assert_eq!(ph[3].tags, vec!["mechanics", "space"]);
    let jp = seed::japanese_items(&j);
    assert_eq!(jp.len(), 6);
    assert_eq!(jp[0].difficulty_bits, 0.15f64.to_bits());
    assert_eq!(jp[5].difficulty_bits, 0.7f64.to_bits());
    assert_eq!(jp[1].front, "食べる");
    assert!(matches!(jp[4].kind, ItemKind::Quiz));
    let cs = seed::seed_concepts(&p, &j);
    assert_eq!(jp[3].concept_ids, vec![cs[9].id, cs[7].id, cs[8].id]);
}

#[test]
fn seeded_profiles_are_dated_back() {
    let now = Timestamp { secs: 10_000_000, nanos: 7 };
    let ps = seed::seed_profiles(now);
    assert_eq!(ps.len(), 3);
    assert_eq!(ps[0].name, "Aiko (Beginner)");
    assert_eq!(ps[0].created_at, Timestamp { secs: 10_000_000 - 30 * 86_400, nanos: 7 });
    assert_eq!(ps[2].created_at, Timestamp { secs: 10_000_000 - 10 * 86_400, nanos: 7 });
    assert_eq!(ps[1].interests, vec!["physics", "mechanics", "space"]);
    assert_eq!(ps[1].id, seed::id("profile", "intermediate"));
}

#[test]
fn seed_ids_are_version_five() {
    let v = seed::id("course", "physics-201");
    assert_eq!((v >> 76) & 0xf, 5);
    assert_eq!((v >> 62) & 0x3, 2);
}

#[test]
fn again_always_counts_a_lapse() {
    let now = Timestamp { secs: 5, nanos: 0 };
    let s = MemoryState::default().reviewed(Rating::Again, now, 0, 0);
    assert_eq!(s.lapses, 1);
    let s = s.reviewed(Rating::Hard, now, 0, 0).reviewed(Rating::Again, now, 0, 0);
    assert_eq!((s.reps, s.lapses), (3, 2));
}

#[test]
fn id_text_matches_uuid_display() {
    for v in [0u128, 1, u128::MAX, SEED_NAMESPACE, 0x0123_4567_89ab_cdef_fedc_ba98_7654_3210] {
        assert_eq!(scaffold::ids::id_text(v), uuid::Uuid::from_u128(v).to_string());
    }
    assert_eq!(scaffold::ids::id_text(SEED_NAMESPACE), "1b671a64-40d5-491e-99b0-da01ff1f3341");
}

#[test]
fn calendar_range_edges_have_dates() {
    assert_eq!(utc_day(Timestamp { secs: -62_135_596_800, nanos: 0 }), Some("0001-01-01".to_string()));
    assert_eq!(utc_day(Timestamp { secs: 253_402_300_799, nanos: 999_999_999 }), Some("9999-12-31".to_string()));
    assert!(utc_day(Timestamp { secs: -8_334_601_228_800, nanos: 0 }).is_some());
    assert!(utc_day(Timestamp { secs: -8_334_601_228_801, nanos: 0 }).is_none());
    assert!(utc_day(Timestamp { secs: 8_210_266_876_799, nanos: 999_999_999 }).is_some());
    assert!(utc_day(Timestamp { secs: 8_210_266_876_800, nanos: 0 }).is_none());
    assert!(utc_day(Timestamp { secs: 59, nanos: 1_500_000_000 }).is_some());
    assert!(utc_day(Timestamp { secs: 58, nanos: 1_500_000_000 }).is_none());
    assert!(utc_day(Timestamp { secs: 59, nanos: 2_000_000_000 }).is_none());
    let ev = EventRow { profile_id: 1, concept_id: 2, item_id: 3, rating: 1, success_weight_bits: 0, created_at: Timestamp { secs: 0, nanos: 0 } };
    let days = activity(&vec![ev, ev, ev]);
    assert_eq!(days.iter().map(|d| d.count).sum::<usize>(), 3);
}

fn civil_date_text(secs: i64) -> String {
    let z = secs.div_euclid(86_400) + 719_468;
    let era = z.div_euclid(146_097);
    let doe = z - era * 146_097;
    let yoe = (doe - doe / 1460 + doe / 36_524 - doe / 146_096) / 365;
    let y = yoe + era * 400;
    let doy = doe - (365 * yoe + yoe / 4 - yoe / 100);
    let mp = (5 * doy + 2) / 153;
    let d = doy - (153 * mp + 2) / 5 + 1;
    let m = if mp < 10 { mp + 3 } else { mp - 9 };
    let y = if m <= 2 { y + 1 } else { y };
    let year = if (0..=9999).contains(&y) {
        format!("{:04}", y)
    } else if y > 9999 {
        format!("+{:04}", y)
    } else {
        format!("-{:04}", -y)
    };
    format!("{}-{:02}-{:02}", year, m, d)
}

#[test]
fn utc_day_follows_the_civil_calendar() {
    let (lo, hi) = (-8_334_601_228_800i64, 8_210_266_876_799i64);
    let mut s = lo;
    let step = (hi - lo) / 200_003;
    while s <= hi {
        assert_eq!(utc_day(Timestamp { secs: s, nanos: 0 }), Some(civil_date_text(s)), "at {s}");
        s += step;
    }
    for s in [lo, hi, 0, -1, 86_399, 86_400, -62_135_596_801, -62_135_596_800, 253_402_300_800, 951_782_400] {
        assert_eq!(utc_day(Timestamp { secs: s, nanos: 0 }), Some(civil_date_text(s)), "at {s}");
    }
    assert_eq!(civil_date_text(-62_135_596_801), "0000-12-31");
}
