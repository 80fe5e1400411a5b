//! The discrete part of the FSRS memory model: review grades and the review
//! counters carried in a memory state.

use vstd::prelude::*;

use crate::models::Timestamp;

verus! {

/// Grade a user gives (or that is inferred) for an interaction.
#[derive(Debug, Clone, Copy, PartialEq, Eq, Structural)]
pub enum Rating {
    Again,
    Hard,
    Good,
    Easy,
}

/// The grade with number `v`, if `v` is one of 1 (Again), 2 (Hard), 3 (Good), 4 (Easy).
pub open spec fn rating_of(v: i16) -> Option<Rating> {
    if v == 1 {
        Some(Rating::Again)
    } else if v == 2 {
        Some(Rating::Hard)
    } else if v == 3 {
        Some(Rating::Good)
    } else if v == 4 {
        Some(Rating::Easy)
    } else {
        None
    }
}

impl Rating {
    /// The grade's number: Again 1, Hard 2, Good 3, Easy 4.
    pub open spec fn number(self) -> i16 {
        match self {
            Rating::Again => 1,
            Rating::Hard => 2,
            Rating::Good => 3,
            Rating::Easy => 4,
        }
    }

    /// The grade's number: Again 1, Hard 2, Good 3, Easy 4.
    pub fn value(self) -> (v: i16)
        ensures
            v == self.number(),
            1 <= v <= 4,
    {
        match self {
            Rating::Again => 1,
            Rating::Hard => 2,
            Rating::Good => 3,
            Rating::Easy => 4,
        }
    }

    /// Parses a numeric grade; anything outside 1..=4 is rejected.
    pub fn from_i16(v: i16) -> (r: Option<Rating>)
        ensures
            r == rating_of(v),
            r is Some <==> 1 <= v <= 4,
    {
        match v {
            1 => Some(Rating::Again),
            2 => Some(Rating::Hard),
            3 => Some(Rating::Good),
            4 => Some(Rating::Easy),
            _ => None,
        }
    }
}

/// Reading a grade's number back gives the grade.
pub proof fn lemma_rating_number_roundtrip(r: Rating)
    ensures
        rating_of(r.number()) == Some(r),
{
}

/// A grade read from a number has that number.
pub proof fn lemma_rating_of_number(v: i16)
    ensures
        rating_of(v) matches Some(r) ==> r.number() == v,
{
}

/// The persisted memory state for a single (user, concept) pair.
///
/// Stability (days until retrievability falls to 90%) and difficulty (in
/// 1..=10) are real numbers; they are carried as their IEEE-754 `f64` bit
/// patterns, which this library stores and compares but never computes with.
#[derive(Debug, Clone, Copy, PartialEq, Eq, Structural)]
pub struct MemoryState {
    pub stability_bits: u64,
    pub difficulty_bits: u64,
    /// Number of reviews so far.
    pub reps: u32,
    /// Number of lapses (Again ratings) so far.
    pub lapses: u32,
    /// Time of the last review, if any.
    pub last_review: Option<Timestamp>,
}

impl Default for MemoryState {
    /// The state of a never reviewed item: everything zero, no last review.
    fn default() -> (s: MemoryState)
        ensures
            s == MemoryState::fresh(),
    {
        MemoryState { stability_bits: 0, difficulty_bits: 0, reps: 0, lapses: 0, last_review: None }
    }
}

impl MemoryState {
    /// The state of a never reviewed item (`0.0` has the all-zero bit pattern).
    pub open spec fn fresh() -> MemoryState {
        MemoryState { stability_bits: 0, difficulty_bits: 0, reps: 0, lapses: 0, last_review: None }
    }

    /// A review from this state is scheduled as a first review.
    pub open spec fn spec_is_first_review(self) -> bool {
        self.reps == 0 || self.last_review is None
    }

    /// The number of lapses after a review with `rating`: every Again rating
    /// is a lapse.
    pub open spec fn lapses_after(self, rating: Rating) -> int {
        if rating == Rating::Again {
            self.lapses + 1
        } else {
            self.lapses as int
        }
    }

    /// A review from this state is scheduled as a first review: no review was
    /// counted yet, or no review time was recorded.
    pub fn is_first_review(&self) -> (r: bool)
        ensures
            r == self.spec_is_first_review(),
    {
        self.reps == 0 || self.last_review.is_none()
    }

    /// The state after a review graded `rating` at `now`, given the new
    /// difficulty and stability computed by the scheduler: one more review,
    /// one more lapse when the rating is Again, and `now` as the last review.
    pub fn reviewed(&self, rating: Rating, now: Timestamp, difficulty_bits: u64, stability_bits: u64) -> (next: MemoryState)
        requires
            self.reps < u32::MAX,
            self.lapses_after(rating) <= u32::MAX,
        ensures
            next.reps == self.reps + 1,
            next.lapses == self.lapses_after(rating),
            next.last_review == Some(now),
            !next.spec_is_first_review(),
            next.difficulty_bits == difficulty_bits,
            next.stability_bits == stability_bits,
    {
        let mut next = *self;
        if rating == Rating::Again {
            next.lapses = self.lapses + 1;
        }
        next.difficulty_bits = difficulty_bits;
        next.stability_bits = stability_bits;
        next.reps = self.reps + 1;
        next.last_review = Some(now);
        next
    }
}

/// The lapse count is the number of Again ratings: an Again adds one lapse,
/// any other rating none, whether or not the item was reviewed before.
pub proof fn lemma_lapses_count_again(s: MemoryState, rating: Rating)
    ensures
        s.lapses_after(rating) == s.lapses + (if rating == Rating::Again { 1int } else { 0int }),
        MemoryState::fresh().lapses_after(Rating::Again) == 1,
{
}

/// The interval in days, bounded to `1..=maximum`.
pub fn bounded_interval(days: i64, maximum: i64) -> (r: i64)
    requires
        1 <= maximum,
    ensures
        1 <= r <= maximum,
        1 <= days <= maximum ==> r == days,
        days < 1 ==> r == 1,
        days > maximum ==> r == maximum,
{
    if days < 1 {
        1
    } else if days > maximum {
        maximum
    } else {
        days
    }
}

} // verus!
