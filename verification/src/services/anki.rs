//! Anki decks: the offline deck store, and the exact steps of reading cards
//! from AnkiConnect replies.

use vstd::prelude::*;

use crate::text::text_eq;

verus! {

/// A card read from Anki.
#[derive(Debug)]
pub struct AnkiCard {
    pub note_id: i64,
    pub front: String,
    pub back: String,
    pub deck: String,
    /// Review interval in days: a proxy for how well the card is learned.
    pub interval: i64,
    /// Ease factor (per mille): also a maturity proxy.
    pub ease: i64,
}

impl Clone for AnkiCard {
    fn clone(&self) -> (r: Self)
        ensures
            r == *self,
    {
        AnkiCard {
            note_id: self.note_id,
            front: self.front.clone(),
            back: self.back.clone(),
            deck: self.deck.clone(),
            interval: self.interval,
            ease: self.ease,
        }
    }
}

/// Why an Anki request failed.
#[derive(Debug)]
pub enum AnkiError {
    Transport(String),
    Api(String),
}

/// A copy of a list of cards.
fn copy_cards(v: &Vec<AnkiCard>) -> (r: Vec<AnkiCard>)
    ensures
        r@ == v@,
{
    let mut r: Vec<AnkiCard> = Vec::new();
    let mut i: usize = 0;
    while i < v.len()
        invariant
            i <= v.len(),
            r@ == v@.take(i as int),
        decreases v.len() - i,
    {
        r.push(v[i].clone());
        i += 1;
        assert(r@ =~= v@.take(i as int));
    }
    assert(v@.take(v.len() as int) =~= v@);
    r
}

/// A card built from its parts.
fn card(note_id: i64, front: &str, back: &str, deck: &str, interval: i64, ease: i64) -> (r: AnkiCard)
    ensures
        r.note_id == note_id,
        r.front@ == front@,
        r.back@ == back@,
        r.deck@ == deck@,
        r.interval == interval,
        r.ease == ease,
{
    AnkiCard { note_id, front: front.to_owned(), back: back.to_owned(), deck: deck.to_owned(), interval, ease }
}

/// An offline deck store: named decks, each with its cards.
#[derive(Debug)]
pub struct MockAnkiClient {
    pub decks: Vec<(String, Vec<AnkiCard>)>,
}

/// Card `c` has these fields.
pub open spec fn card_is(c: AnkiCard, note_id: i64, front: Seq<char>, back: Seq<char>, deck: Seq<char>, interval: i64, ease: i64) -> bool {
    c.note_id == note_id && c.front@ == front && c.back@ == back && c.deck@ == deck && c.interval == interval
        && c.ease == ease
}

impl MockAnkiClient {
    /// One deck, "Japanese::Core", with three cards: 水 (water), 食べる (to eat)
    /// and 行く (to go).
    pub fn with_sample() -> (r: MockAnkiClient)
        ensures
            r.decks@.len() == 1,
            r.decks@[0].0@ == "Japanese::Core"@,
            r.decks@[0].1@.len() == 3,
            card_is(r.decks@[0].1@[0], 1, "水"@, "water (mizu)"@, "Japanese::Core"@, 45, 2500),
            card_is(r.decks@[0].1@[1], 2, "食べる"@, "to eat (taberu)"@, "Japanese::Core"@, 30, 2400),
            card_is(r.decks@[0].1@[2], 3, "行く"@, "to go (iku)"@, "Japanese::Core"@, 12, 2100),
    {
        let mut cards: Vec<AnkiCard> = Vec::new();
        cards.push(card(1, "水", "water (mizu)", "Japanese::Core", 45, 2500));
        cards.push(card(2, "食べる", "to eat (taberu)", "Japanese::Core", 30, 2400));
        cards.push(card(3, "行く", "to go (iku)", "Japanese::Core", 12, 2100));
        let mut decks: Vec<(String, Vec<AnkiCard>)> = Vec::new();
        decks.push(("Japanese::Core".to_owned(), cards));
        MockAnkiClient { decks }
    }

    /// The deck names, in order.
    pub fn list_decks(&self) -> (r: Result<Vec<String>, AnkiError>)
        ensures
            r matches Ok(v) && v@.len() == self.decks@.len() && forall|i: int|
                0 <= i < v@.len() ==> #[trigger] v@[i] == self.decks@[i].0,
    {
        let mut v: Vec<String> = Vec::new();
        let mut i: usize = 0;
        while i < self.decks.len()
            invariant
                i <= self.decks@.len(),
                v@.len() == i,
                forall|k: int| 0 <= k < i ==> #[trigger] v@[k] == self.decks@[k].0,
            decreases self.decks.len() - i,
        {
            v.push(self.decks[i].0.clone());
            i += 1;
        }
        Ok(v)
    }

    /// The cards of the first deck named `deck`; none when no deck has that name.
    pub fn cards_in_deck(&self, deck: &str) -> (r: Result<Vec<AnkiCard>, AnkiError>)
        ensures
            r matches Ok(v) && ((exists|k: int|
                0 <= k < self.decks@.len() && #[trigger] self.decks@[k].0@ == deck@ && v@ == self.decks@[k].1@
                    && forall|j: int| 0 <= j < k ==> self.decks@[j].0@ != deck@) || (v@.len() == 0 && forall|k: int|
                0 <= k < self.decks@.len() ==> #[trigger] self.decks@[k].0@ != deck@)),
    {
        let mut i: usize = 0;
        while i < self.decks.len()
            invariant
                i <= self.decks@.len(),
                forall|k: int| 0 <= k < i ==> #[trigger] self.decks@[k].0@ != deck@,
            decreases self.decks.len() - i,
        {
            if text_eq(self.decks[i].0.as_str(), deck) {
                let v = copy_cards(&self.decks[i].1);
                assert(self.decks@[i as int].0@ == deck@);
                return Ok(v);
            }
            i += 1;
        }
        Ok(Vec::new())
    }
}

/// The AnkiConnect search for the cards of `deck`: `deck:"<deck>"`.
pub fn deck_query(deck: &str) -> (r: String)
    ensures
        r@ == "deck:\""@ + deck@ + "\""@,
{
    let mut q = "deck:\"".to_owned();
    q.append(deck);
    q.append("\"");
    q
}

/// The error an AnkiConnect reply reports: its `error` field, when that is
/// a non-empty text.
pub fn reply_error(error: Option<String>) -> (r: Option<AnkiError>)
    ensures
        match r {
            Some(AnkiError::Api(m)) => error matches Some(e) && e@.len() > 0 && m == e,
            Some(AnkiError::Transport(_)) => false,
            None => !(error matches Some(e) && e@.len() > 0),
        },
{
    match error {
        Some(e) => if e.as_str().is_empty() {
            None
        } else {
            Some(AnkiError::Api(e))
        },
        None => None,
    }
}

/// A card of `deck` from the fields of a `cardsInfo` reply: missing note,
/// interval, front and back read as zero or empty, a missing ease factor as 2500.
pub fn card_from_fields(
    note: Option<i64>,
    front: Option<String>,
    back: Option<String>,
    deck: &str,
    interval: Option<i64>,
    factor: Option<i64>,
) -> (r: AnkiCard)
    ensures
        r.note_id == (match note { Some(n) => n, None => 0 }),
        r.front@ == (match front { Some(f) => f@, None => Seq::<char>::empty() }),
        r.back@ == (match back { Some(b) => b@, None => Seq::<char>::empty() }),
        r.deck@ == deck@,
        r.interval == (match interval { Some(n) => n, None => 0 }),
        r.ease == (match factor { Some(n) => n, None => 2500 }),
{
    AnkiCard {
        note_id: match note {
            Some(n) => n,
            None => 0,
        },
        front: match front {
            Some(f) => f,
            None => String::new(),
        },
        back: match back {
            Some(b) => b,
            None => String::new(),
        },
        deck: deck.to_owned(),
        interval: match interval {
            Some(n) => n,
            None => 0,
        },
        ease: match factor {
            Some(n) => n,
            None => 2500,
        },
    }
}

/// The fields of one card in a `cardsInfo` reply, each `None` where the
/// reply lacks it.
#[derive(Debug)]
pub struct CardInfo {
    pub note: Option<i64>,
    pub front: Option<String>,
    pub back: Option<String>,
    pub interval: Option<i64>,
    pub factor: Option<i64>,
}

/// `card` is the card of `deck` that `info` describes: missing note,
/// interval, front and back read as zero or empty, a missing ease factor as
/// 2500.
pub open spec fn card_of(card: AnkiCard, info: CardInfo, deck: Seq<char>) -> bool {
    &&& card.note_id == (match info.note { Some(n) => n, None => 0 })
    &&& card.front@ == (match info.front { Some(f) => f@, None => Seq::<char>::empty() })
    &&& card.back@ == (match info.back { Some(b) => b@, None => Seq::<char>::empty() })
    &&& card.deck@ == deck
    &&& card.interval == (match info.interval { Some(n) => n, None => 0 })
    &&& card.ease == (match info.factor { Some(n) => n, None => 2500 })
}

/// What reading a deck's cards does once `findCards` has answered.
#[derive(Debug)]
pub enum DeckStep {
    /// No card matched: the deck has no cards, and `cardsInfo` is not asked.
    NoCards,
    /// Ask `cardsInfo` about these card identifiers.
    FetchInfo(Vec<i64>),
}

/// The step after `findCards` answered with `ids`: no second request when
/// there are no identifiers, else `cardsInfo` about exactly those.
pub fn after_find_cards(ids: Vec<i64>) -> (r: DeckStep)
    ensures
        r is NoCards <==> ids@.len() == 0,
        r matches DeckStep::FetchInfo(x) ==> x@ == ids@,
{
    if ids.len() == 0 {
        DeckStep::NoCards
    } else {
        DeckStep::FetchInfo(ids)
    }
}

/// A copy of an optional text.
fn copy_opt(o: &Option<String>) -> (r: Option<String>)
    ensures
        r == *o,
{
    match o {
        Some(s) => Some(s.clone()),
        None => None,
    }
}

/// The cards of `deck` described by a `cardsInfo` reply, one per entry, in
/// the reply's order.
pub fn cards_from_info(deck: &str, infos: &Vec<CardInfo>) -> (r: Vec<AnkiCard>)
    ensures
        r@.len() == infos@.len(),
        forall|i: int| 0 <= i < infos@.len() ==> card_of(#[trigger] r@[i], infos@[i], deck@),
        forall|i: int|
            0 <= i < infos@.len() ==> {
                &&& (#[trigger] r@[i]).note_id == (match infos@[i].note { Some(n) => n, None => 0 })
                &&& r@[i].front@ == (match infos@[i].front { Some(f) => f@, None => Seq::<char>::empty() })
                &&& r@[i].back@ == (match infos@[i].back { Some(b) => b@, None => Seq::<char>::empty() })
                &&& r@[i].deck@ == deck@
                &&& r@[i].interval == (match infos@[i].interval { Some(n) => n, None => 0 })
                &&& r@[i].ease == (match infos@[i].factor { Some(n) => n, None => 2500 })
            },
{
    let mut r: Vec<AnkiCard> = Vec::new();
    let mut i: usize = 0;
    while i < infos.len()
        invariant
            i <= infos@.len(),
            r@.len() == i,
            forall|k: int| 0 <= k < i ==> card_of(#[trigger] r@[k], infos@[k], deck@),
        decreases infos.len() - i,
    {
        let info = &infos[i];
        let card = card_from_fields(
            info.note,
            copy_opt(&info.front),
            copy_opt(&info.back),
            deck,
            info.interval,
            info.factor,
        );
        r.push(card);
        i += 1;
    }
    r
}

/// A card described by a `cardsInfo` entry takes each of its fields from
/// the entry's own field: its back is the entry's Back (empty when absent),
/// whatever the Front is, and likewise for the front, note, interval and
/// ease (2500 when absent); so cards built from the same entry and deck
/// are equal, and `card_from_fields` on the entry's fields builds it.
pub proof fn law_card_fields_from_entry(card: AnkiCard, other: AnkiCard, info: CardInfo, deck: Seq<char>)
    requires
        card_of(card, info, deck),
        card_of(other, info, deck),
    ensures
        card.back@ == (match info.back { Some(b) => b@, None => Seq::<char>::empty() }),
        card.front@ == (match info.front { Some(f) => f@, None => Seq::<char>::empty() }),
        card.note_id == (match info.note { Some(n) => n, None => 0 }),
        card.interval == (match info.interval { Some(n) => n, None => 0 }),
        card.ease == (match info.factor { Some(n) => n, None => 2500 }),
        card.deck@ == deck,
        card.note_id == other.note_id && card.front@ == other.front@ && card.back@ == other.back@
            && card.deck@ == other.deck@ && card.interval == other.interval && card.ease == other.ease,
{
}

} // verus!
