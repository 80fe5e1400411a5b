//! Text comparisons used across the library: equality, the lexicographic
//! order of `String` (by Unicode scalar value), ASCII case-insensitive
//! equality and substring search.

use vstd::prelude::*;

verus! {

/// The first `k` characters of `a` and `b` agree.
pub open spec fn agree_upto(a: Seq<char>, b: Seq<char>, k: int) -> bool {
    forall|i: int| 0 <= i < k ==> a[i] == b[i]
}

/// `a` comes no later than `b` in lexicographic order of Unicode scalar
/// values (the order of `String`'s `Ord`, since UTF-8 preserves it): either `a`
/// is a prefix of `b`, or at the first position where they differ `a` has the
/// smaller character.
pub open spec fn text_le(a: Seq<char>, b: Seq<char>) -> bool {
    ||| (a.len() <= b.len() && agree_upto(a, b, a.len() as int))
    ||| exists|k: int|
        0 <= k < a.len() && k < b.len() && agree_upto(a, b, k) && (a[k] as int) < (#[trigger] b[k] as int)
}

/// Any two texts are comparable.
pub proof fn lemma_text_le_total(a: Seq<char>, b: Seq<char>)
    ensures
        text_le(a, b) || text_le(b, a),
{
    if !text_le(a, b) {
        let m = if a.len() < b.len() { a.len() as int } else { b.len() as int };
        if agree_upto(a, b, m) {
            assert(b.len() <= a.len());
            assert(agree_upto(b, a, b.len() as int));
        } else {
            let k = choose|k: int| 0 <= k < m && a[k] != b[k];
            lemma_first_difference(a, b, k);
            let j = choose|j: int| 0 <= j <= k && agree_upto(a, b, j) && a[j] != b[j];
            if (a[j] as int) < (b[j] as int) {
                assert(text_le(a, b));
            } else {
                assert(agree_upto(b, a, j));
                assert((b[j] as int) < (a[j] as int)) by {
                    assert(a[j] != b[j]);
                    assert((a[j] as int) != (b[j] as int));
                }
                assert(text_le(b, a));
            }
        }
    }
}

/// Where two texts differ at `k`, there is a first position where they differ.
proof fn lemma_first_difference(a: Seq<char>, b: Seq<char>, k: int)
    requires
        0 <= k < a.len(),
        k < b.len(),
        a[k] != b[k],
    ensures
        exists|j: int| 0 <= j <= k && agree_upto(a, b, j) && a[j] != b[j],
    decreases k,
{
    if agree_upto(a, b, k) {
        assert(agree_upto(a, b, k) && a[k] != b[k]);
    } else {
        let i = choose|i: int| 0 <= i < k && a[i] != b[i];
        lemma_first_difference(a, b, i);
    }
}

/// The order is transitive.
pub proof fn lemma_text_le_transitive(a: Seq<char>, b: Seq<char>, c: Seq<char>)
    requires
        text_le(a, b),
        text_le(b, c),
    ensures
        text_le(a, c),
{
    let ab_prefix = a.len() <= b.len() && agree_upto(a, b, a.len() as int);
    let bc_prefix = b.len() <= c.len() && agree_upto(b, c, b.len() as int);
    if ab_prefix && bc_prefix {
        assert(agree_upto(a, c, a.len() as int));
    } else if ab_prefix {
        let k = choose|k: int|
            0 <= k < b.len() && k < c.len() && agree_upto(b, c, k) && (b[k] as int) < (#[trigger] c[k] as int);
        if k < a.len() {
            assert(agree_upto(a, c, k));
            assert((a[k] as int) < (c[k] as int));
        } else {
            assert(agree_upto(a, c, a.len() as int));
        }
    } else if bc_prefix {
        let k = choose|k: int|
            0 <= k < a.len() && k < b.len() && agree_upto(a, b, k) && (a[k] as int) < (#[trigger] b[k] as int);
        assert(agree_upto(a, c, k));
        assert((a[k] as int) < (c[k] as int));
    } else {
        let k1 = choose|k: int|
            0 <= k < a.len() && k < b.len() && agree_upto(a, b, k) && (a[k] as int) < (#[trigger] b[k] as int);
        let k2 = choose|k: int|
            0 <= k < b.len() && k < c.len() && agree_upto(b, c, k) && (b[k] as int) < (#[trigger] c[k] as int);
        if k1 < k2 {
            assert(agree_upto(a, c, k1));
            assert((a[k1] as int) < (c[k1] as int));
        } else if k2 < k1 {
            assert(agree_upto(a, c, k2));
            assert((a[k2] as int) < (c[k2] as int));
        } else {
            assert(agree_upto(a, c, k1));
            assert((a[k1] as int) < (c[k1] as int));
        }
    }
}

/// Texts that come no later than each other are equal.
pub proof fn lemma_text_le_antisymmetric(a: Seq<char>, b: Seq<char>)
    requires
        text_le(a, b),
        text_le(b, a),
    ensures
        a == b,
{
    let ab_prefix = a.len() <= b.len() && agree_upto(a, b, a.len() as int);
    let ba_prefix = b.len() <= a.len() && agree_upto(b, a, b.len() as int);
    if ab_prefix && ba_prefix {
        assert(a =~= b);
    } else if ab_prefix {
        let k = choose|k: int|
            0 <= k < b.len() && k < a.len() && agree_upto(b, a, k) && (b[k] as int) < (#[trigger] a[k] as int);
        assert(false);
    } else if ba_prefix {
        let k = choose|k: int|
            0 <= k < a.len() && k < b.len() && agree_upto(a, b, k) && (a[k] as int) < (#[trigger] b[k] as int);
        assert(false);
    } else {
        let k1 = choose|k: int|
            0 <= k < a.len() && k < b.len() && agree_upto(a, b, k) && (a[k] as int) < (#[trigger] b[k] as int);
        let k2 = choose|k: int|
            0 <= k < b.len() && k < a.len() && agree_upto(b, a, k) && (b[k] as int) < (#[trigger] a[k] as int);
        if k1 < k2 {
            assert(a[k1] == b[k1]);
        } else if k2 < k1 {
            assert(b[k2] == a[k2]);
        }
        assert(false);
    }
}

/// The code point of `c`.
fn code_point(c: char) -> (r: u32)
    ensures
        r as int == c as int,
{
    c as u32
}

/// `a` comes no later than `b` in the order of `String`.
pub fn text_le_exec(a: &str, b: &str) -> (r: bool)
    ensures
        r == text_le(a@, b@),
{
    let va = chars_of(a);
    let vb = chars_of(b);
    let la = va.len();
    let lb = vb.len();
    let mut i: usize = 0;
    while i < la && i < lb
        invariant
            va@ == a@,
            vb@ == b@,
            la == a@.len(),
            lb == b@.len(),
            i <= la,
            i <= lb,
            agree_upto(a@, b@, i as int),
        decreases la - i,
    {
        let ca = va[i];
        let cb = vb[i];
        assert(ca == a@[i as int] && cb == b@[i as int]);
        if ca != cb {
            let ua = code_point(ca);
            let ub = code_point(cb);
            if ua < ub {
                return true;
            } else {
                proof {
                    assert((a@[i as int] as int) != (b@[i as int] as int));
                    if text_le(a@, b@) {
                        if la <= lb && agree_upto(a@, b@, la as int) {
                            assert(a@[i as int] == b@[i as int]);
                        } else {
                            let k = choose|k: int|
                                0 <= k < a@.len() && k < b@.len() && agree_upto(a@, b@, k) && (a@[k] as int) < (
                                #[trigger] b@[k] as int);
                            if k < i {
                                assert(a@[k] == b@[k]);
                            } else if k > i {
                                assert(a@[i as int] == b@[i as int]);
                            }
                        }
                    }
                }
                return false;
            }
        }
        i += 1;
    }
    proof {
        if la > lb {
            if text_le(a@, b@) {
                let k = choose|k: int|
                    0 <= k < a@.len() && k < b@.len() && agree_upto(a@, b@, k) && (a@[k] as int) < (
                    #[trigger] b@[k] as int);
                assert(a@[k] == b@[k]);
            }
        }
    }
    la <= lb
}

/// `a` and `b` are the same text.
pub fn text_eq(a: &str, b: &str) -> (r: bool)
    ensures
        r == (a@ == b@),
{
    let va = chars_of(a);
    let vb = chars_of(b);
    let la = va.len();
    let lb = vb.len();
    if la != lb {
        return false;
    }
    let mut i: usize = 0;
    while i < la
        invariant
            va@ == a@,
            vb@ == b@,
            la == a@.len(),
            lb == b@.len(),
            la == lb,
            i <= la,
            agree_upto(a@, b@, i as int),
        decreases la - i,
    {
        if va[i] != vb[i] {
            return false;
        }
        i += 1;
    }
    assert(a@ =~= b@);
    true
}


/// The characters of `s`, in order.
pub fn chars_of(s: &str) -> (r: Vec<char>)
    ensures
        r@ == s@,
{
    let mut r: Vec<char> = Vec::new();
    for c in it: s.chars()
        invariant
            it.seq() == s@,
            r@ == s@.take(it.index() as int),
    {
        r.push(c);
        assert(r@ =~= s@.take(it.index() + 1));
    }
    assert(s@.take(s@.len() as int) =~= s@);
    r
}

/// ASCII lower-casing of a code point: `A`..=`Z` map to `a`..=`z`, all
/// other code points are unchanged.
pub open spec fn ascii_fold(c: int) -> int {
    if 65 <= c <= 90 {
        c + 32
    } else {
        c
    }
}

/// `a` and `b` match up to ASCII case: same length, and the characters agree
/// position by position after ASCII lower-casing.
pub open spec fn eq_ignore_ascii_case_spec(a: Seq<char>, b: Seq<char>) -> bool {
    a.len() == b.len() && forall|i: int| 0 <= i < a.len() ==> ascii_fold(a[i] as int) == ascii_fold(#[trigger] b[i] as int)
}

/// The ASCII lower-cased code point of `c`.
fn fold_code(c: char) -> (r: u32)
    ensures
        r as int == ascii_fold(c as int),
{
    let u = c as u32;
    if 65 <= u && u <= 90 {
        u + 32
    } else {
        u
    }
}

/// `a` and `b` match up to ASCII case.
pub fn eq_ignore_ascii_case(a: &str, b: &str) -> (r: bool)
    ensures
        r == eq_ignore_ascii_case_spec(a@, b@),
{
    let va = chars_of(a);
    let vb = chars_of(b);
    if va.len() != vb.len() {
        return false;
    }
    let mut i: usize = 0;
    while i < va.len()
        invariant
            va@ == a@,
            vb@ == b@,
            va.len() == vb.len(),
            i <= va.len(),
            forall|j: int| 0 <= j < i ==> ascii_fold(a@[j] as int) == ascii_fold(#[trigger] b@[j] as int),
        decreases va.len() - i,
    {
        if fold_code(va[i]) != fold_code(vb[i]) {
            return false;
        }
        i += 1;
    }
    true
}

/// `needle` occurs in `hay` starting at position `i`.
pub open spec fn occurs_at(hay: Seq<char>, needle: Seq<char>, i: int) -> bool {
    0 <= i && i + needle.len() <= hay.len() && hay.subrange(i, i + needle.len()) == needle
}

/// `needle` occurs somewhere in `hay`.
pub open spec fn contains_text(hay: Seq<char>, needle: Seq<char>) -> bool {
    exists|i: int| occurs_at(hay, needle, i)
}

/// `needle` occurs in `hay` exactly when, at some position of `hay`, the
/// characters from there on start with `needle`; so a needle found at any
/// position, however far into `hay`, counts.
pub proof fn law_contains_text_anywhere(hay: Seq<char>, needle: Seq<char>, i: int)
    ensures
        (0 <= i && i + needle.len() <= hay.len() && hay.subrange(i, i + needle.len()) == needle) ==> contains_text(
            hay,
            needle,
        ),
        contains_text(hay, needle) ==> exists|j: int|
            0 <= j && j + needle.len() <= hay.len() && #[trigger] hay.subrange(j, j + needle.len()) == needle,
{
    if 0 <= i && i + needle.len() <= hay.len() && hay.subrange(i, i + needle.len()) == needle {
        assert(occurs_at(hay, needle, i));
    }
    if contains_text(hay, needle) {
        let j = choose|j: int| occurs_at(hay, needle, j);
        assert(hay.subrange(j, j + needle.len()) == needle);
    }
}

/// `needle` occurs in `hay` at position `i`, checked character by character.
fn occurs_at_exec(hay: &Vec<char>, needle: &Vec<char>, i: usize) -> (r: bool)
    requires
        i + needle.len() <= hay.len(),
    ensures
        r == occurs_at(hay@, needle@, i as int),
{
    let mut j: usize = 0;
    while j < needle.len()
        invariant
            i + needle.len() <= hay.len(),
            j <= needle.len(),
            forall|k: int| 0 <= k < j ==> hay@[i + k] == needle@[k],
        decreases needle.len() - j,
    {
        if hay[i + j] != needle[j] {
            assert(hay@.subrange(i as int, i + needle.len())[j as int] != needle@[j as int]);
            return false;
        }
        j += 1;
    }
    assert(hay@.subrange(i as int, i + needle.len()) =~= needle@);
    true
}

/// `needle` occurs somewhere in `hay` (the empty text occurs everywhere).
pub fn contains_chars(hay: &Vec<char>, needle: &Vec<char>) -> (r: bool)
    ensures
        r == contains_text(hay@, needle@),
{
    if needle.len() > hay.len() {
        assert forall|i: int| !occurs_at(hay@, needle@, i) by {}
        return false;
    }
    let last = hay.len() - needle.len();
    let mut i: usize = 0;
    while i <= last
        invariant
            last + needle.len() == hay.len(),
            forall|k: int| 0 <= k < i ==> !occurs_at(hay@, needle@, k),
        decreases last + 1 - i,
    {
        if occurs_at_exec(hay, needle, i) {
            return true;
        }
        if i == last {
            assert forall|k: int| !occurs_at(hay@, needle@, k) by {
                if 0 <= k <= last {
                } else {
                }
            }
            return false;
        }
        i += 1;
    }
    false
}

/// The Unicode lower-case mapping of a text, as computed by `str::to_lowercase`.
pub uninterp spec fn lowercase_of(s: Seq<char>) -> Seq<char>;

/// Calls `str::to_lowercase`. Claims only that the result is
/// `lowercase_of(s)`: the same text always has the same lower-case form.
#[verifier::external_body]
pub fn to_lowercase(s: &str) -> (r: String)
    ensures
        r@ == lowercase_of(s@),
{
    s.to_lowercase()
}

} // verus!
