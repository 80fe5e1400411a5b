//! The exact (non-numeric) parts of N+1 content selection: candidates built
//! from content items, and how many of a candidate's tags match the
//! learner's interests.

use vstd::prelude::*;

use crate::models::{copy_ids, copy_strings, ContentItem};
use crate::text::{eq_ignore_ascii_case, eq_ignore_ascii_case_spec};

verus! {

/// A candidate piece of comprehensible input.
#[derive(Debug)]
pub struct Candidate {
    pub id: u128,
    /// Concepts that appear in the content.
    pub concept_ids: Vec<u128>,
    /// Tags describing the content's topic or interest area.
    pub tags: Vec<String>,
    /// Nominal difficulty in 0..1, as the bit pattern of an `f64`.
    pub difficulty_bits: u64,
}

/// The candidate for content item `i`: same identifier, concepts, tags and difficulty.
pub open spec fn candidate_of(c: Candidate, i: ContentItem) -> bool {
    &&& c.id == i.id
    &&& c.concept_ids@ == i.concept_ids@
    &&& c.tags@ == i.tags@
    &&& c.difficulty_bits == i.difficulty_bits
}

/// One candidate per content item, in the same order.
pub fn items_to_candidates(items: &Vec<ContentItem>) -> (r: Vec<Candidate>)
    ensures
        r@.len() == items@.len(),
        forall|k: int| 0 <= k < items@.len() ==> candidate_of(#[trigger] r@[k], items@[k]),
        forall|k: int| 0 <= k < items@.len() ==> (#[trigger] r@[k]).id == items@[k].id,
        forall|k: int|
            0 <= k < items@.len() ==> (#[trigger] r@[k]).concept_ids@ == items@[k].concept_ids@ && r@[k].tags@
                == items@[k].tags@ && r@[k].difficulty_bits == items@[k].difficulty_bits,
{
    let mut r: Vec<Candidate> = Vec::new();
    let mut k: usize = 0;
    while k < items.len()
        invariant
            k <= items@.len(),
            r@.len() == k,
            forall|j: int| 0 <= j < k ==> candidate_of(#[trigger] r@[j], items@[j]),
        decreases items.len() - k,
    {
        let it = &items[k];
        r.push(
            Candidate {
                id: it.id,
                concept_ids: copy_ids(&it.concept_ids),
                tags: copy_strings(&it.tags),
                difficulty_bits: it.difficulty_bits,
            },
        );
        k += 1;
    }
    r
}

/// Tag `t` matches one of `interests`, ignoring ASCII case.
pub open spec fn matches_interest(t: String, interests: Seq<String>) -> bool {
    exists|i: int| 0 <= i < interests.len() && eq_ignore_ascii_case_spec(#[trigger] interests[i]@, t@)
}

/// The number of tags that match one of the interests, ignoring ASCII case.
pub open spec fn interest_matches(tags: Seq<String>, interests: Seq<String>) -> nat
    decreases tags.len(),
{
    if tags.len() == 0 {
        0
    } else {
        interest_matches(tags.drop_last(), interests) + (if matches_interest(tags.last(), interests) {
            1nat
        } else {
            0nat
        })
    }
}

/// Tag `t` matches one of `interests`, ignoring ASCII case.
fn tag_matches(t: &String, interests: &Vec<String>) -> (r: bool)
    ensures
        r == matches_interest(*t, interests@),
{
    let mut i: usize = 0;
    while i < interests.len()
        invariant
            i <= interests@.len(),
            forall|j: int| 0 <= j < i ==> !eq_ignore_ascii_case_spec(#[trigger] interests@[j]@, t@),
        decreases interests.len() - i,
    {
        if eq_ignore_ascii_case(interests[i].as_str(), t.as_str()) {
            return true;
        }
        i += 1;
    }
    false
}

/// How many of `tags` match one of `interests`, ignoring ASCII case.
pub fn count_interest_matches(tags: &Vec<String>, interests: &Vec<String>) -> (r: usize)
    ensures
        r == interest_matches(tags@, interests@),
        r <= tags@.len(),
{
    let mut n: usize = 0;
    let mut i: usize = 0;
    while i < tags.len()
        invariant
            i <= tags@.len(),
            n == interest_matches(tags@.take(i as int), interests@),
            n <= i,
        decreases tags.len() - i,
    {
        assert(tags@.take(i + 1).drop_last() =~= tags@.take(i as int));
        assert(tags@.take(i + 1).last() == tags@[i as int]);
        if tag_matches(&tags[i], interests) {
            n += 1;
        }
        i += 1;
    }
    assert(tags@.take(tags@.len() as int) =~= tags@);
    n
}

/// A candidate built for a content item carries that item's identifier,
/// concepts, tags and difficulty; so candidates built for items with
/// distinct identifiers have distinct identifiers.
pub proof fn law_candidates_follow_items(c1: Candidate, i1: ContentItem, c2: Candidate, i2: ContentItem)
    requires
        candidate_of(c1, i1),
        candidate_of(c2, i2),
    ensures
        c1.id == i1.id,
        c1.concept_ids@ == i1.concept_ids@,
        c1.tags@ == i1.tags@,
        c1.difficulty_bits == i1.difficulty_bits,
        i1.id != i2.id ==> c1.id != c2.id,
{
}

/// Counting one more tag adds one exactly when that tag equals one of the
/// interests ignoring ASCII case, and nothing otherwise.
pub proof fn law_interest_matches_push(tags: Seq<String>, t: String, interests: Seq<String>)
    ensures
        interest_matches(tags.push(t), interests) == interest_matches(tags, interests) + (if exists|j: int|
            0 <= j < interests.len() && eq_ignore_ascii_case_spec(#[trigger] interests[j]@, t@) {
            1int
        } else {
            0int
        }),
{
    assert(tags.push(t).drop_last() =~= tags);
    assert(tags.push(t).last() == t);
}

/// When every tag equals some interest ignoring ASCII case, every tag is
/// counted; when none does, none is; and never more tags than there are.
pub proof fn law_interest_matches_extremes(tags: Seq<String>, interests: Seq<String>)
    ensures
        interest_matches(tags, interests) <= tags.len(),
        (forall|k: int|
            0 <= k < tags.len() ==> exists|j: int|
                0 <= j < interests.len() && eq_ignore_ascii_case_spec(#[trigger] interests[j]@, (#[trigger] tags[k])@))
            ==> interest_matches(tags, interests) == tags.len(),
        (forall|k: int, j: int|
            0 <= k < tags.len() && 0 <= j < interests.len() ==> !eq_ignore_ascii_case_spec(
                #[trigger] interests[j]@,
                (#[trigger] tags[k])@,
            )) ==> interest_matches(tags, interests) == 0,
    decreases tags.len(),
{
    if tags.len() > 0 {
        let init = tags.drop_last();
        law_interest_matches_extremes(init, interests);
        assert(tags =~= init.push(tags.last()));
        law_interest_matches_push(init, tags.last(), interests);
        if forall|k: int|
            0 <= k < tags.len() ==> exists|j: int|
                0 <= j < interests.len() && eq_ignore_ascii_case_spec(#[trigger] interests[j]@, (#[trigger] tags[k])@) {
            assert forall|k: int| 0 <= k < init.len() implies exists|j: int|
                0 <= j < interests.len() && eq_ignore_ascii_case_spec(#[trigger] interests[j]@, (#[trigger] init[k])@) by {
                assert(init[k] == tags[k]);
            }
            assert(tags[tags.len() - 1] == tags.last());
        }
        if forall|k: int, j: int|
            0 <= k < tags.len() && 0 <= j < interests.len() ==> !eq_ignore_ascii_case_spec(
                #[trigger] interests[j]@,
                (#[trigger] tags[k])@,
            ) {
            assert forall|k: int, j: int| 0 <= k < init.len() && 0 <= j < interests.len() implies !eq_ignore_ascii_case_spec(
                #[trigger] interests[j]@,
                (#[trigger] init[k])@,
            ) by {
                assert(init[k] == tags[k]);
            }
            assert(tags[tags.len() - 1] == tags.last());
        }
    }
}

} // verus!
