use scaffold::config::{store_after_connect, store_plan, StoreKind, StorePlan};
use scaffold::services::anki::{after_find_cards, cards_from_info, CardInfo, DeckStep};
use scaffold::services::ai::{tags_of_lowercase, MockAiClient};
use scaffold::services::anki::{card_from_fields, deck_query, reply_error, AnkiError, MockAnkiClient};
use scaffold::services::aws::{MockIdentityProvider, MockObjectStore};
use scaffold::services::ingest::MockScraper;

#[test]
fn mock_lists_and_reads() {
    let c = MockAnkiClient::with_sample();
    let decks = c.list_decks().unwrap();
    assert_eq!(decks, vec!["Japanese::Core"]);
    let cards = c.cards_in_deck("Japanese::Core").unwrap();
    assert_eq!(cards.len(), 3);
    assert_eq!(cards[0].front, "水");
}

#[test]
fn unknown_deck_is_empty() {
    let c = MockAnkiClient::with_sample();
    assert!(c.cards_in_deck("Nope").unwrap().is_empty());
}

#[test]
fn deck_query_quotes_the_deck() {
    assert_eq!(deck_query("Japanese::Core"), "deck:\"Japanese::Core\"");
}

#[test]
fn reply_error_reports_non_empty_errors_only() {
    assert!(reply_error(None).is_none());
    assert!(reply_error(Some(String::new())).is_none());
    match reply_error(Some("collection is not available".to_string())) {
        Some(AnkiError::Api(m)) => assert_eq!(m, "collection is not available"),
        other => panic!("unexpected {other:?}"),
    }
}

#[test]
fn card_fields_default_when_missing() {
    let c = card_from_fields(None, None, None, "Deck", None, None);
    assert_eq!(c.note_id, 0);
    assert_eq!(c.front, "");
    assert_eq!(c.back, "");
    assert_eq!(c.deck, "Deck");
    assert_eq!(c.interval, 0);
    assert_eq!(c.ease, 2500);
    let d = card_from_fields(Some(9), Some("f".into()), Some("b".into()), "Deck", Some(3), Some(2100));
    assert_eq!((d.note_id, d.front.as_str(), d.back.as_str(), d.interval, d.ease), (9, "f", "b", 3, 2100));
}

#[test]
fn identity_roundtrip() {
    let mut idp = MockIdentityProvider::new();
    let id = idp.create_user("a@b.com").unwrap();
    assert_eq!(idp.get_user(&id).unwrap(), Some("a@b.com".to_string()));
}

#[test]
fn created_user_ids_are_uuid_text() {
    let mut idp = MockIdentityProvider::new();
    let a = idp.create_user("a@b.com").unwrap();
    let b = idp.create_user("c@d.com").unwrap();
    let parsed = uuid::Uuid::parse_str(&a).unwrap();
    assert_eq!(parsed.get_version_num(), 4);
    assert_ne!(a, b);
    assert_eq!(idp.get_user(&b).unwrap(), Some("c@d.com".to_string()));
    assert_eq!(idp.get_user("missing").unwrap(), None);
}

#[test]
fn object_store_roundtrip() {
    let mut s = MockObjectStore::new();
    s.put("bkt", "k", b"hi".to_vec()).unwrap();
    assert_eq!(s.get("bkt", "k").unwrap(), Some(b"hi".to_vec()));
    assert_eq!(s.get("bkt", "missing").unwrap(), None);
}

#[test]
fn object_store_put_replaces() {
    let mut s = MockObjectStore::new();
    s.put("bkt", "k", b"one".to_vec()).unwrap();
    s.put("bkt", "k", b"two".to_vec()).unwrap();
    s.put("other", "k", b"three".to_vec()).unwrap();
    assert_eq!(s.get("bkt", "k").unwrap(), Some(b"two".to_vec()));
    assert_eq!(s.get("other", "k").unwrap(), Some(b"three".to_vec()));
}

#[test]
fn mock_scraper_returns_content() {
    let s = MockScraper;
    let c = s.scrape("https://example.com/post").unwrap();
    assert_eq!(c.url, "https://example.com/post");
    assert!(!c.text.is_empty());
}

#[test]
fn mock_generates_valid_mcq() {
    let ai = MockAiClient;
    let q = ai.generate_mcq("Newton's second law", "F = ma").unwrap();
    assert_eq!(q.choices.len(), 4);
    assert!(q.answer_index < q.choices.len());
}

#[test]
fn mcq_prompt_names_the_concept() {
    let q = MockAiClient.generate_mcq("Newton's second law", "").unwrap();
    assert_eq!(q.prompt, "Which best describes 'Newton's second law'?");
    assert_eq!(q.choices[0], "The correct definition of Newton's second law");
    assert_eq!(q.choices[3], "A third distractor");
}

#[test]
fn mock_tags_follow_keywords() {
    let ai = MockAiClient;
    let tags = ai.grade_tags("The limit of a function as x approaches zero");
    assert!(tags.contains(&"calculus".to_string()));
    assert_eq!(ai.grade_tags("FORCE and Energy"), vec!["mechanics", "mechanics"]);
    assert_eq!(ai.grade_tags("nothing here"), vec!["general"]);
    assert_eq!(ai.grade_tags("A Particle, a VERB"), vec!["grammar", "grammar"]);
}

#[test]
fn tags_of_lowercased_text() {
    assert_eq!(tags_of_lowercase("the limit of a force"), vec!["calculus", "mechanics"]);
    assert_eq!(tags_of_lowercase("LIMIT"), vec!["general"]);
    assert_eq!(tags_of_lowercase("a particle and a verb"), vec!["grammar", "grammar"]);
}

#[test]
fn mock_captions_have_segments() {
    let f = scaffold::services::ingest::MockCaptionFetcher;
    let t = f.fetch_captions("abc123").unwrap();
    assert_eq!(t.video_id, "abc123");
    assert_eq!(t.segments.len(), 2);
    assert_eq!(t.language, "en");
    assert_eq!(f64::from_bits(t.segments[1].start_bits), 3.0);
    assert_eq!(f64::from_bits(t.segments[1].duration_bits), 4.0);
    assert_eq!(t.segments[0].text, "Welcome to the lesson.");
}

#[test]
fn deck_reading_steps() {
    assert!(matches!(after_find_cards(vec![]), DeckStep::NoCards));
    match after_find_cards(vec![7, 9]) {
        DeckStep::FetchInfo(ids) => assert_eq!(ids, vec![7, 9]),
        DeckStep::NoCards => panic!("expected a cardsInfo request"),
    }
    let infos = vec![
        CardInfo { note: Some(1), front: Some("水".to_string()), back: Some("water".to_string()), interval: Some(3), factor: None },
        CardInfo { note: None, front: None, back: None, interval: None, factor: Some(2100) },
    ];
    let cards = cards_from_info("Japanese::Core", &infos);
    assert_eq!(cards.len(), 2);
    assert_eq!((cards[0].note_id, cards[0].front.as_str(), cards[0].interval, cards[0].ease), (1, "水", 3, 2500));
    assert_eq!((cards[1].note_id, cards[1].back.as_str(), cards[1].ease), (0, "", 2100));
    assert_eq!(cards[1].deck, "Japanese::Core");
}

#[test]
fn store_is_chosen_from_settings_and_connection() {
    assert!(matches!(store_plan(&None), StorePlan::Memory));
    match store_plan(&Some("postgres://db".to_string())) {
        StorePlan::Connect(u) => assert_eq!(u, "postgres://db"),
        StorePlan::Memory => panic!("expected a connection attempt"),
    }
    assert_eq!(store_after_connect(true), StoreKind::Postgres);
    assert_eq!(store_after_connect(false), StoreKind::Memory);
}
