//! Grading content and generating comprehension questions: the
//! deterministic heuristics of the offline client.

use vstd::prelude::*;

use crate::text::{chars_of, contains_chars, contains_text, lowercase_of, to_lowercase};

verus! {

/// A multiple-choice comprehension question.
#[derive(Debug)]
pub struct McqQuestion {
    pub prompt: String,
    pub choices: Vec<String>,
    pub answer_index: usize,
}

/// Why a grading or generation request failed.
#[derive(Debug)]
pub enum AiError {
    Transport(String),
    Response(String),
}

/// The offline client: deterministic heuristics in place of a model.
#[derive(Debug)]
pub struct MockAiClient;

/// `tag` when `kw` occurs in `lower`, else nothing.
pub open spec fn tag_if(lower: Seq<char>, kw: Seq<char>, tag: Seq<char>) -> Seq<Seq<char>> {
    if contains_text(lower, kw) {
        seq![tag]
    } else {
        Seq::empty()
    }
}

/// The interest tags of lower-cased text `lower`: "calculus" for "limit",
/// "mechanics" for "force" and for "energy", "grammar" for "verb" and for
/// "particle", in that order; "general" alone when none applies.
pub open spec fn keyword_tags(lower: Seq<char>) -> Seq<Seq<char>> {
    let found = tag_if(lower, "limit"@, "calculus"@) + tag_if(lower, "force"@, "mechanics"@) + tag_if(
        lower,
        "energy"@,
        "mechanics"@,
    ) + tag_if(lower, "verb"@, "grammar"@) + tag_if(lower, "particle"@, "grammar"@);
    if found.len() == 0 {
        seq!["general"@]
    } else {
        found
    }
}

/// A keyword's tag is among the tags of `lower` exactly when the keyword
/// occurs anywhere in `lower`: "calculus" for "limit", "mechanics" for
/// "force" or "energy", "grammar" for "verb" or "particle"; "general" is
/// the only tag exactly when none occurs.
pub proof fn law_keyword_tags(lower: Seq<char>)
    ensures
        keyword_tags(lower).contains("calculus"@) <==> contains_text(lower, "limit"@),
        keyword_tags(lower).contains("mechanics"@) <==> (contains_text(lower, "force"@) || contains_text(
            lower,
            "energy"@,
        )),
        keyword_tags(lower).contains("grammar"@) <==> (contains_text(lower, "verb"@) || contains_text(
            lower,
            "particle"@,
        )),
        keyword_tags(lower) == seq!["general"@] <==> !(contains_text(lower, "limit"@) || contains_text(
            lower,
            "force"@,
        ) || contains_text(lower, "energy"@) || contains_text(lower, "verb"@) || contains_text(lower, "particle"@)),
{
    reveal_strlit("calculus");
    reveal_strlit("mechanics");
    reveal_strlit("grammar");
    reveal_strlit("general");
    assert("calculus"@.len() == 8 && "mechanics"@.len() == 9 && "grammar"@.len() == 7 && "general"@.len() == 7);
    assert("grammar"@[1] == 'r' && "general"@[1] == 'e');
    assert("calculus"@ != "mechanics"@ && "calculus"@ != "grammar"@ && "calculus"@ != "general"@);
    assert("mechanics"@ != "grammar"@ && "mechanics"@ != "general"@ && "grammar"@ != "general"@);
    let a = tag_if(lower, "limit"@, "calculus"@);
    let b = tag_if(lower, "force"@, "mechanics"@);
    let c = tag_if(lower, "energy"@, "mechanics"@);
    let d = tag_if(lower, "verb"@, "grammar"@);
    let e = tag_if(lower, "particle"@, "grammar"@);
    let found = a + b + c + d + e;
    assert(found =~= a + b + c + d + e);
    let la = a.len() as int;
    let lb = la + b.len();
    let lc = lb + c.len();
    let ld = lc + d.len();
    assert forall|k: int| 0 <= k < found.len() implies (#[trigger] found[k] == "calculus"@ <==> k < la) && (found[k]
        == "mechanics"@ <==> la <= k < lc) && (found[k] == "grammar"@ <==> lc <= k) by {
        if k < la {
            assert(found[k] == a[k]);
        } else if k < lb {
            assert(found[k] == b[k - la]);
        } else if k < lc {
            assert(found[k] == c[k - lb]);
        } else if k < ld {
            assert(found[k] == d[k - lc]);
        } else {
            assert(found[k] == e[k - ld]);
        }
    }
    if a.len() > 0 {
        assert(found[0] == "calculus"@);
    }
    if b.len() > 0 {
        assert(found[la] == "mechanics"@);
    }
    if c.len() > 0 {
        assert(found[lb] == "mechanics"@);
    }
    if d.len() > 0 {
        assert(found[lc] == "grammar"@);
    }
    if e.len() > 0 {
        assert(found[ld] == "grammar"@);
    }
    if found.len() == 0 {
        assert(keyword_tags(lower) =~= seq!["general"@]);
        assert(keyword_tags(lower)[0] == "general"@);
    } else {
        assert(!found.contains("general"@));
    }
}

/// The texts of a sequence of strings.
pub open spec fn texts_of(s: Seq<String>) -> Seq<Seq<char>> {
    s.map_values(|x: String| x@)
}

/// Appends `tag` to `tags` when `kw` occurs in `lower`.
fn push_tag_if(tags: &mut Vec<String>, lower: &Vec<char>, kw: &str, tag: &str)
    ensures
        texts_of(final(tags)@) == texts_of(old(tags)@) + tag_if(lower@, kw@, tag@),
{
    let k = chars_of(kw);
    let ghost before = tags@;
    if contains_chars(lower, &k) {
        tags.push(tag.to_owned());
        assert(texts_of(tags@) =~= texts_of(before) + tag_if(lower@, kw@, tag@));
    } else {
        assert(texts_of(tags@) =~= texts_of(before) + tag_if(lower@, kw@, tag@));
    }
}

/// The interest tags of an already lower-cased text: one tag per keyword it
/// contains, in keyword order, or `general` when it contains none.
pub fn tags_of_lowercase(lower_text: &str) -> (r: Vec<String>)
    ensures
        texts_of(r@) == keyword_tags(lower_text@),
        texts_of(r@).contains("calculus"@) <==> contains_text(lower_text@, "limit"@),
        texts_of(r@).contains("mechanics"@) <==> (contains_text(lower_text@, "force"@) || contains_text(
            lower_text@,
            "energy"@,
        )),
        texts_of(r@).contains("grammar"@) <==> (contains_text(lower_text@, "verb"@) || contains_text(
            lower_text@,
            "particle"@,
        )),
        texts_of(r@) == seq!["general"@] <==> !(contains_text(lower_text@, "limit"@) || contains_text(
            lower_text@,
            "force"@,
        ) || contains_text(lower_text@, "energy"@) || contains_text(lower_text@, "verb"@) || contains_text(
            lower_text@,
            "particle"@,
        )),
{
    proof {
        law_keyword_tags(lower_text@);
    }
    let lower = chars_of(lower_text);
    let mut tags: Vec<String> = Vec::new();
    assert(texts_of(tags@) =~= Seq::<Seq<char>>::empty());
    push_tag_if(&mut tags, &lower, "limit", "calculus");
    push_tag_if(&mut tags, &lower, "force", "mechanics");
    push_tag_if(&mut tags, &lower, "energy", "mechanics");
    push_tag_if(&mut tags, &lower, "verb", "grammar");
    push_tag_if(&mut tags, &lower, "particle", "grammar");
    if tags.len() == 0 {
        tags.push("general".to_owned());
        assert(texts_of(tags@) =~= seq!["general"@]);
    }
    tags
}

impl MockAiClient {
    /// The interest tags of `text`, from keywords of its lower-cased form.
    pub fn grade_tags(&self, text: &str) -> (r: Vec<String>)
        ensures
            texts_of(r@) == keyword_tags(lowercase_of(text@)),
    {
        let lower_text = to_lowercase(text);
        tags_of_lowercase(lower_text.as_str())
    }

    /// A question about `concept`: its prompt asks which choice describes
    /// the concept, the first choice is its definition and is the answer,
    /// followed by three distractors.
    pub fn generate_mcq(&self, concept: &str, _context: &str) -> (r: Result<McqQuestion, AiError>)
        ensures
            r matches Ok(q) && {
                &&& q.prompt@ == "Which best describes '"@ + concept@ + "'?"@
                &&& texts_of(q.choices@) == seq![
                    "The correct definition of "@ + concept@,
                    "An unrelated distractor"@,
                    "Another distractor"@,
                    "A third distractor"@,
                ]
                &&& q.answer_index == 0
            },
    {
        let mut prompt = "Which best describes '".to_owned();
        prompt.append(concept);
        prompt.append("'?");
        let mut first = "The correct definition of ".to_owned();
        first.append(concept);
        let mut choices: Vec<String> = Vec::new();
        choices.push(first);
        choices.push("An unrelated distractor".to_owned());
        choices.push("Another distractor".to_owned());
        choices.push("A third distractor".to_owned());
        assert(texts_of(choices@) =~= seq![
            "The correct definition of "@ + concept@,
            "An unrelated distractor"@,
            "Another distractor"@,
            "A third distractor"@,
        ]);
        Ok(McqQuestion { prompt, choices, answer_index: 0 })
    }
}

} // verus!
