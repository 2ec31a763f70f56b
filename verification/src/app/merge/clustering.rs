//! Clustering: a lexical shortlist, a model's choice among it, and a lexical fallback.

use vstd::prelude::*;
use crate::app::merge::{ClusterCandidate, ClusterDecision, Clusterer};
use crate::conversation::{Message, UserContent};
use crate::text;
use vstd::string::*;

verus! {

/// How many candidates a model is asked about.
pub const MAX_LLM_CANDIDATES: usize = 8;

// ---------------------------------------------------------------------------
// Words
// ---------------------------------------------------------------------------

/// Unicode's letters and numbers beyond ASCII, as std's `char::is_alphanumeric` has them.
pub uninterp spec fn unicode_alphanumeric(c: char) -> bool;

/// A text in lower case, as std's `str::to_lowercase` has it.
pub uninterp spec fn lowercase(s: Seq<char>) -> Seq<char>;

/// Letters and numbers.
pub open spec fn alphanumeric(c: char) -> bool {
    if (c as u32) < 128 {
        ('a' <= c && c <= 'z') || ('A' <= c && c <= 'Z') || ('0' <= c && c <= '9')
    } else {
        unicode_alphanumeric(c)
    }
}

/// `char::is_alphanumeric` of std: within ASCII the letters and digits, beyond it what Unicode
/// says, which depends on the character alone.
pub assume_specification[ char::is_alphanumeric ](c: char) -> (r: bool)
    ensures
        r == (if (c as u32) < 128 {
            ('a' <= c && c <= 'z') || ('A' <= c && c <= 'Z') || ('0' <= c && c <= '9')
        } else {
            unicode_alphanumeric(c)
        }),
;

/// `str::to_lowercase` of std: the result depends on the text alone.
pub assume_specification[ str::to_lowercase ](s: &str) -> (r: String)
    ensures
        r@ == lowercase(s@),
;

/// A word stands from `a` up to `b`: letters and numbers with none of them on either side.
pub open spec fn is_word(s: Seq<char>, a: int, b: int) -> bool {
    &&& 0 <= a < b <= s.len()
    &&& forall|k: int| a <= k < b ==> alphanumeric(#[trigger] s[k])
    &&& a > 0 ==> !alphanumeric(s[a - 1])
    &&& b < s.len() ==> !alphanumeric(s[b])
}

/// `w` is, in lower case, a word that ends at or before `end`.
pub open spec fn word_until(s: Seq<char>, end: int, w: Seq<char>) -> bool {
    exists|a: int, b: int| #[trigger]
        is_word(s, a, b) && b <= end && lowercase(s.subrange(a, b)) == w
}

/// The words of a text, in lower case.
pub open spec fn words(s: Seq<char>) -> Set<Seq<char>> {
    Set::new(|w: Seq<char>| word_until(s, s.len() as int, w))
}

fn holds(list: &Vec<String>, w: &str) -> (r: bool)
    ensures
        r == text::views(list@).contains(w@),
{
    let mut i: usize = 0;
    while i < list.len()
        invariant
            i <= list.len(),
            forall|k: int| 0 <= k < i ==> #[trigger] text::views(list@)[k] != w@,
        decreases list.len() - i,
    {
        if text::same(list[i].as_str(), w) {
            assert(text::views(list@)[i as int] == w@);
            return true;
        }
        i = i + 1;
    }
    false
}

/// A run of letters and numbers between two that are none is the only word that ends in it.
proof fn run_is_the_word(s: Seq<char>, i: int, e: int, a: int, b: int)
    requires
        0 <= i < e <= s.len(),
        forall|k: int| i <= k < e ==> alphanumeric(#[trigger] s[k]),
        i > 0 ==> !alphanumeric(s[i - 1]),
        e < s.len() ==> !alphanumeric(s[e]),
        is_word(s, a, b),
        i < b <= e,
    ensures
        a == i,
        b == e,
{
    if b < e {
        assert(alphanumeric(s[b]));
    }
    if a > i {
        assert(alphanumeric(s[a - 1]));
    }
    if a < i {
        assert(alphanumeric(s[i - 1]));
    }
}

/// The words of a text, each once.
pub fn tokenize(input: &str) -> (list: Vec<String>)
    ensures
        text::views(list@).no_duplicates(),
        text::views(list@).to_set() == words(input@),
        list@.len() <= 0x8000_0000_0000_0000,
{
    let s = text::to_chars(input);
    let mut list: Vec<String> = Vec::new();
    let mut i: usize = 0;
    while i < s.len()
        invariant
            s@ == input@,
            i <= s.len(),
            i > 0 && i < s.len() ==> !alphanumeric(s@[i - 1]) || !alphanumeric(s@[i as int]),
            text::views(list@).no_duplicates(),
            2 * list@.len() <= i + 1,
            i < s.len() && alphanumeric(s@[i as int]) ==> 2 * list@.len() <= i,
            forall|w: Seq<char>| #[trigger]
                text::views(list@).contains(w) <==> word_until(s@, i as int, w),
        decreases s.len() - i,
    {
        let ghost before = text::views(list@);
        if !s[i].is_alphanumeric() {
            assert forall|w: Seq<char>|
                word_until(s@, i as int, w) <==> #[trigger] word_until(s@, i as int + 1, w) by {
                if word_until(s@, i as int + 1, w) {
                    let (a, b) = choose|a: int, b: int| #[trigger]
                        is_word(s@, a, b) && b <= i + 1 && lowercase(s@.subrange(a, b)) == w;
                    if b == i + 1 {
                        assert(alphanumeric(s@[i as int]));
                    }
                    assert(is_word(s@, a, b));
                }
                if word_until(s@, i as int, w) {
                    let (a, b) = choose|a: int, b: int| #[trigger]
                        is_word(s@, a, b) && b <= i && lowercase(s@.subrange(a, b)) == w;
                    assert(is_word(s@, a, b));
                }
            }
            i = i + 1;
            continue;
        }
        let mut e: usize = i;
        while e < s.len() && s[e].is_alphanumeric()
            invariant
                i <= e <= s.len(),
                forall|k: int| i <= k < e ==> alphanumeric(#[trigger] s@[k]),
            decreases s.len() - e,
        {
            e = e + 1;
        }
        let word = text::slice(&s, i, e).as_str().to_lowercase();
        let ghost ww = word@;
        assert(is_word(s@, i as int, e as int));
        let known = holds(&list, word.as_str());
        if !known {
            list.push(word);
            assert(text::views(list@) =~= before.push(ww));
        }
        let ghost after = text::views(list@);
        assert forall|w: Seq<char>| #[trigger] after.contains(w) <==> before.contains(w) || w
            == ww by {
            if !known {
                if before.contains(w) {
                    let k = before.index_of(w);
                    assert(after[k] == w);
                }
                if w == ww {
                    assert(after[before.len() as int] == w);
                }
                if after.contains(w) {
                    let k = choose|k: int| 0 <= k < after.len() && after[k] == w;
                    if k < before.len() {
                        assert(before[k] == w);
                    }
                }
            }
        }
        assert forall|w: Seq<char>| #[trigger] after.contains(w) <==> word_until(
            s@,
            e as int,
            w,
        ) by {
            if word_until(s@, i as int, w) {
                let (a, b) = choose|a: int, b: int| #[trigger]
                    is_word(s@, a, b) && b <= i && lowercase(s@.subrange(a, b)) == w;
                assert(is_word(s@, a, b));
                assert(word_until(s@, e as int, w));
            }
            if word_until(s@, e as int, w) {
                let (a, b) = choose|a: int, b: int| #[trigger]
                    is_word(s@, a, b) && b <= e && lowercase(s@.subrange(a, b)) == w;
                if b <= i {
                    assert(is_word(s@, a, b));
                    assert(word_until(s@, i as int, w));
                } else {
                    run_is_the_word(s@, i as int, e as int, a, b);
                }
            }
            if w == ww {
                assert(is_word(s@, i as int, e as int));
                assert(word_until(s@, e as int, w));
            }
        }
        i = e;
    }
    assert(text::views(list@).to_set() =~= words(input@));
    list
}

// ---------------------------------------------------------------------------
// Similarity
// ---------------------------------------------------------------------------

/// How much of the words of two texts they share: a fraction between zero and one.
#[derive(Debug, Clone, Copy, PartialEq, Eq, Structural)]
pub struct Score {
    pub shared: u128,
    pub total: u128,
}

impl Score {
    /// A fraction at most one, of counts that two texts can have.
    pub open spec fn valid(self) -> bool {
        &&& self.shared <= self.total
        &&& self.shared <= 0x8000_0000_0000_0000
        &&& 0 < self.total <= 0x1_0000_0000_0000_0000
    }

    /// One fraction is less than the other.
    pub open spec fn below(self, other: Score) -> bool {
        self.shared * other.total < other.shared * self.total
    }

    /// Whether one fraction is less than the other.
    pub fn is_below(&self, other: &Score) -> (r: bool)
        requires
            self.valid(),
            other.valid(),
        ensures
            r == self.below(*other),
    {
        proof {
            products_fit(self.shared as int, other.total as int);
            products_fit(other.shared as int, self.total as int);
        }
        self.shared * other.total < other.shared * self.total
    }
}

proof fn products_fit(a: int, b: int)
    by (nonlinear_arith)
    requires
        0 <= a <= 0x8000_0000_0000_0000,
        0 <= b <= 0x1_0000_0000_0000_0000,
    ensures
        0 <= a * b <= 0x8000_0000_0000_0000_0000_0000_0000_0000,
{
}

/// The Jaccard similarity: the words that two texts share over all the words of either; zero
/// where one of them has none.
pub open spec fn similarity(a: Seq<char>, b: Seq<char>) -> (int, int) {
    if words(a) == Set::<Seq<char>>::empty() || words(b) == Set::<Seq<char>>::empty() {
        (0, 1)
    } else {
        (words(a).intersect(words(b)).len() as int, words(a).union(words(b)).len() as int)
    }
}

proof fn set_of_distinct(list: Seq<Seq<char>>)
    requires
        list.no_duplicates(),
    ensures
        list.to_set().finite(),
        list.to_set().len() == list.len(),
    decreases list.len(),
{
    if list.len() == 0 {
        assert(list.to_set() =~= Set::empty());
    } else {
        let init = list.drop_last();
        set_of_distinct(init);
        assert(list.to_set() =~= init.to_set().insert(list.last())) by {
            assert forall|w: Seq<char>| list.to_set().contains(w) <==> init.to_set().insert(
                list.last(),
            ).contains(w) by {
                if list.contains(w) {
                    let k = choose|k: int| 0 <= k < list.len() && list[k] == w;
                    if k < init.len() {
                        assert(init[k] == w);
                    }
                }
                if init.contains(w) {
                    let k = choose|k: int| 0 <= k < init.len() && init[k] == w;
                    assert(list[k] == w);
                }
                assert(list[list.len() - 1] == list.last());
            }
        }
        assert(!init.to_set().contains(list.last())) by {
            if init.contains(list.last()) {
                let k = choose|k: int| 0 <= k < init.len() && init[k] == list.last();
                assert(list[k] == list[list.len() - 1]);
            }
        }
    }
}

proof fn shared_is_part(a: Set<Seq<char>>, b: Set<Seq<char>>)
    requires
        b.finite(),
    ensures
        a.intersect(b).len() <= b.len(),
{
    assert(a.intersect(b) =~= b.intersect(a));
    vstd::set_lib::lemma_len_intersect(b, a);
}

/// The Jaccard similarity of two texts.
pub fn jaccard(a: &str, b: &str) -> (r: Score)
    ensures
        (r.shared as int, r.total as int) == similarity(a@, b@),
        r.valid(),
{
    let sa = tokenize(a);
    let sb = tokenize(b);
    let ghost va = text::views(sa@);
    let ghost vb = text::views(sb@);
    proof {
        set_of_distinct(va);
        set_of_distinct(vb);
        if va.len() > 0 {
            assert(va.to_set().contains(va[0]));
        } else {
            assert(va.to_set() =~= Set::empty());
        }
        if vb.len() > 0 {
            assert(vb.to_set().contains(vb[0]));
        } else {
            assert(vb.to_set() =~= Set::empty());
        }
    }
    if sa.len() == 0 || sb.len() == 0 {
        return Score { shared: 0, total: 1 };
    }
    let mut shared: usize = 0;
    let mut only: usize = 0;
    let mut i: usize = 0;
    let ghost seen = Set::<Seq<char>>::empty();
    assert(seen.intersect(vb.to_set()) =~= Set::empty());
    assert(seen.union(vb.to_set()) =~= vb.to_set());
    while i < sa.len()
        invariant
            i <= sa.len(),
            va == text::views(sa@),
            vb == text::views(sb@),
            va.no_duplicates(),
            vb.to_set().finite(),
            vb.to_set().len() == vb.len(),
            seen.finite(),
            forall|w: Seq<char>| #[trigger]
                seen.contains(w) <==> exists|k: int| 0 <= k < i && va[k] == w,
            shared + only == i,
            shared <= vb.len(),
            sa@.len() <= 0x8000_0000_0000_0000,
            sb@.len() <= 0x8000_0000_0000_0000,
            seen.intersect(vb.to_set()).finite(),
            seen.intersect(vb.to_set()).len() == shared,
            seen.union(vb.to_set()).finite(),
            seen.union(vb.to_set()).len() == vb.len() + only,
        decreases sa.len() - i,
    {
        let ghost w = va[i as int];
        let ghost next = seen.insert(w);
        assert(sa@[i as int]@ == w);
        assert(!seen.contains(w));
        if holds(&sb, sa[i].as_str()) {
            assert(vb.to_set().contains(w));
            assert(next.intersect(vb.to_set()) =~= seen.intersect(vb.to_set()).insert(w));
            assert(next.union(vb.to_set()) =~= seen.union(vb.to_set()));
            proof {
                shared_is_part(next, vb.to_set());
            }
            shared = shared + 1;
        } else {
            assert(!vb.to_set().contains(w));
            assert(next.intersect(vb.to_set()) =~= seen.intersect(vb.to_set()));
            assert(next.union(vb.to_set()) =~= seen.union(vb.to_set()).insert(w));
            only = only + 1;
        }
        assert forall|x: Seq<char>| #[trigger] next.contains(x) <==> exists|k: int|
            0 <= k < i + 1 && va[k] == x by {
            if seen.contains(x) {
                let k = choose|k: int| 0 <= k < i && va[k] == x;
                assert(0 <= k < i + 1 && va[k] == x);
            }
            if x == w {
                assert(0 <= i < i + 1 && va[i as int] == x);
            }
        }
        proof {
            seen = next;
        }
        i = i + 1;
    }
    assert(seen =~= va.to_set()) by {
        assert forall|x: Seq<char>| seen.contains(x) <==> va.to_set().contains(x) by {
            if va.contains(x) {
                let k = choose|k: int| 0 <= k < va.len() && va[k] == x;
                assert(0 <= k < i && va[k] == x);
            }
        }
    }
    assert(va.to_set().union(vb.to_set()).contains(va[0]));
    Score { shared: shared as u128, total: sb.len() as u128 + only as u128 }
}

// ---------------------------------------------------------------------------
// Ranking
// ---------------------------------------------------------------------------

/// How well a candidate fits a summary.
pub open spec fn score_of(summary: Seq<char>, c: ClusterCandidate) -> (int, int) {
    similarity(summary, c.summary@)
}

/// The one fraction is less than the other.
pub open spec fn less(a: (int, int), b: (int, int)) -> bool {
    a.0 * b.1 < b.0 * a.1
}

/// The first place in a ranking from `i` on before which `c` belongs: behind everything that
/// fits at least as well.
pub open spec fn rank_from(
    summary: Seq<char>,
    ranked: Seq<ClusterCandidate>,
    c: ClusterCandidate,
    i: int,
) -> int
    decreases ranked.len() - i,
{
    if i < 0 || i >= ranked.len() || less(score_of(summary, ranked[i]), score_of(summary, c)) {
        i
    } else {
        rank_from(summary, ranked, c, i + 1)
    }
}

/// The candidates from the best fit down; of two that fit alike the earlier one stays first.
pub open spec fn ranking(summary: Seq<char>, candidates: Seq<ClusterCandidate>) -> Seq<
    ClusterCandidate,
>
    decreases candidates.len(),
{
    if candidates.len() == 0 {
        Seq::empty()
    } else {
        let ranked = ranking(summary, candidates.drop_last());
        ranked.insert(rank_from(summary, ranked, candidates.last(), 0), candidates.last())
    }
}

/// The best `limit` candidates, from the best fit down.
pub open spec fn shortlist(
    summary: Seq<char>,
    candidates: Seq<ClusterCandidate>,
    limit: int,
) -> Seq<ClusterCandidate> {
    let ranked = ranking(summary, candidates);
    if ranked.len() <= limit {
        ranked
    } else {
        ranked.take(limit)
    }
}

proof fn rank_bounds(
    summary: Seq<char>,
    ranked: Seq<ClusterCandidate>,
    c: ClusterCandidate,
    i: int,
)
    requires
        0 <= i <= ranked.len(),
    ensures
        i <= rank_from(summary, ranked, c, i) <= ranked.len(),
        forall|k: int|
            i <= k < rank_from(summary, ranked, c, i) ==> !less(
                score_of(summary, #[trigger] ranked[k]),
                score_of(summary, c),
            ),
        rank_from(summary, ranked, c, i) < ranked.len() ==> less(
            score_of(summary, ranked[rank_from(summary, ranked, c, i)]),
            score_of(summary, c),
        ),
    decreases ranked.len() - i,
{
    if i < ranked.len() && !less(score_of(summary, ranked[i]), score_of(summary, c)) {
        rank_bounds(summary, ranked, c, i + 1);
    }
}

/// A ranking holds every candidate as often as the list does.
pub proof fn ranking_keeps_all(summary: Seq<char>, candidates: Seq<ClusterCandidate>)
    ensures
        ranking(summary, candidates).len() == candidates.len(),
        ranking(summary, candidates).to_multiset() == candidates.to_multiset(),
    decreases candidates.len(),
{
    if candidates.len() == 0 {
        assert(candidates =~= ranking(summary, candidates));
    } else {
        let init = candidates.drop_last();
        let c = candidates.last();
        ranking_keeps_all(summary, init);
        let ranked = ranking(summary, init);
        rank_bounds(summary, ranked, c, 0);
        assert(init.push(c) =~= candidates);
        vstd::seq_lib::to_multiset_insert(ranked, rank_from(summary, ranked, c, 0), c);
        vstd::seq_lib::to_multiset_build(init, c);
    }
}

/// The words that end at or before `end`.
pub open spec fn words_until(s: Seq<char>, end: int) -> Set<Seq<char>> {
    Set::new(|w: Seq<char>| word_until(s, end, w))
}

/// A text has finitely many words.
pub proof fn words_are_finite(s: Seq<char>, end: int)
    requires
        0 <= end <= s.len(),
    ensures
        words_until(s, end).finite(),
        words_until(s, s.len() as int) == words(s),
    decreases end,
{
    assert(words_until(s, s.len() as int) =~= words(s));
    if end == 0 {
        assert(words_until(s, 0) =~= Set::empty());
    } else {
        let before = words_until(s, end - 1);
        words_are_finite(s, end - 1);
        if exists|a: int| is_word(s, a, end) {
            let a = choose|a: int| is_word(s, a, end);
            let w = lowercase(s.subrange(a, end));
            assert(words_until(s, end) =~= before.insert(w)) by {
                assert forall|x: Seq<char>| words_until(s, end).contains(x) <==> before.insert(
                    w,
                ).contains(x) by {
                    if word_until(s, end, x) {
                        let (p, q) = choose|p: int, q: int| #[trigger]
                            is_word(s, p, q) && q <= end && lowercase(s.subrange(p, q)) == x;
                        if q == end {
                            run_is_the_word(s, a, end, p, q);
                        } else {
                            assert(is_word(s, p, q));
                            assert(word_until(s, end - 1, x));
                        }
                    }
                    if word_until(s, end - 1, x) {
                        let (p, q) = choose|p: int, q: int| #[trigger]
                            is_word(s, p, q) && q <= end - 1 && lowercase(s.subrange(p, q)) == x;
                        assert(is_word(s, p, q));
                        assert(word_until(s, end, x));
                    }
                    if x == w {
                        assert(is_word(s, a, end));
                        assert(word_until(s, end, x));
                    }
                }
            }
        } else {
            assert(words_until(s, end) =~= before) by {
                assert forall|x: Seq<char>| words_until(s, end).contains(x) <==> before.contains(
                    x,
                ) by {
                    if word_until(s, end, x) {
                        let (p, q) = choose|p: int, q: int| #[trigger]
                            is_word(s, p, q) && q <= end && lowercase(s.subrange(p, q)) == x;
                        assert(is_word(s, p, q));
                        assert(q != end);
                        assert(word_until(s, end - 1, x));
                    }
                    if word_until(s, end - 1, x) {
                        let (p, q) = choose|p: int, q: int| #[trigger]
                            is_word(s, p, q) && q <= end - 1 && lowercase(s.subrange(p, q)) == x;
                        assert(is_word(s, p, q));
                        assert(word_until(s, end, x));
                    }
                }
            }
        }
    }
}

/// A similarity is a fraction between zero and one, and the same whichever text comes first.
pub proof fn similarity_is_a_fraction(a: Seq<char>, b: Seq<char>)
    ensures
        0 <= similarity(a, b).0 <= similarity(a, b).1,
        0 < similarity(a, b).1,
        similarity(a, b) == similarity(b, a),
{
    let (wa, wb) = (words(a), words(b));
    words_are_finite(a, a.len() as int);
    words_are_finite(b, b.len() as int);
    assert(wa.intersect(wb) =~= wb.intersect(wa));
    assert(wa.union(wb) =~= wb.union(wa));
    if wa != Set::<Seq<char>>::empty() && wb != Set::<Seq<char>>::empty() {
        assert(exists|w: Seq<char>| wa.contains(w)) by {
            if forall|w: Seq<char>| !wa.contains(w) {
                assert(wa =~= Set::empty());
            }
        }
        let w = choose|w: Seq<char>| wa.contains(w);
        assert(wa.union(wb).contains(w));
        vstd::set_lib::lemma_len_intersect(wa, wb);
        vstd::set_lib::lemma_len_union(wa, wb);
        assert(wa.subset_of(wa.union(wb)));
        vstd::set_lib::lemma_len_subset(wa, wa.union(wb));
        if wa.union(wb).len() == 0 {
            assert(wa.union(wb) =~= Set::empty());
        }
    }
}

/// A text with words is fully similar to itself.
pub proof fn same_words_are_fully_similar(a: Seq<char>)
    ensures
        words(a) != Set::<Seq<char>>::empty() ==> similarity(a, a).0 == similarity(a, a).1,
{
    assert(words(a).intersect(words(a)) =~= words(a));
    assert(words(a).union(words(a)) =~= words(a));
}

proof fn less_chain(a: (int, int), b: (int, int), c: (int, int))
    by (nonlinear_arith)
    requires
        a.1 > 0,
        b.1 > 0,
        c.1 > 0,
        a.0 >= 0,
        b.0 >= 0,
        c.0 >= 0,
        !(a.0 * b.1 < b.0 * a.1),
        a.0 * c.1 < c.0 * a.1,
    ensures
        b.0 * c.1 < c.0 * b.1,
{
}

/// A ranking goes from the best fit down.
pub proof fn ranking_is_sorted(summary: Seq<char>, candidates: Seq<ClusterCandidate>)
    ensures
        forall|i: int, j: int|
            0 <= i <= j < ranking(summary, candidates).len() ==> !less(
                score_of(summary, #[trigger] ranking(summary, candidates)[i]),
                score_of(summary, #[trigger] ranking(summary, candidates)[j]),
            ),
    decreases candidates.len(),
{
    if candidates.len() > 0 {
        let c = candidates.last();
        let old_rank = ranking(summary, candidates.drop_last());
        ranking_is_sorted(summary, candidates.drop_last());
        rank_bounds(summary, old_rank, c, 0);
        let p = rank_from(summary, old_rank, c, 0);
        let new_rank = ranking(summary, candidates);
        assert forall|i: int, j: int| 0 <= i <= j < new_rank.len() implies !less(
            score_of(summary, #[trigger] new_rank[i]),
            score_of(summary, #[trigger] new_rank[j]),
        ) by {
            let x = if i < p {
                i
            } else {
                i - 1
            };
            let y = if j < p {
                j
            } else {
                j - 1
            };
            similarity_is_a_fraction(summary, new_rank[i].summary@);
            similarity_is_a_fraction(summary, new_rank[j].summary@);
            if i == p && j > p {
                assert(new_rank[j] == old_rank[y]);
                assert(!less(score_of(summary, old_rank[p]), score_of(summary, old_rank[y])));
                similarity_is_a_fraction(summary, old_rank[p].summary@);
                less_chain(
                    score_of(summary, old_rank[p]),
                    score_of(summary, old_rank[y]),
                    score_of(summary, c),
                );
            } else if j == p && i < p {
                assert(new_rank[i] == old_rank[i]);
            } else if i != p && j != p {
                assert(new_rank[i] == old_rank[x] && new_rank[j] == old_rank[y]);
            }
        }
    }
}

/// The candidates of a shortlist are candidates, at most `limit` of them.
pub proof fn shortlist_is_a_part(
    summary: Seq<char>,
    candidates: Seq<ClusterCandidate>,
    limit: int,
)
    requires
        0 <= limit,
    ensures
        shortlist(summary, candidates, limit).len() == (if candidates.len() <= limit {
            candidates.len() as int
        } else {
            limit
        }),
        forall|i: int|
            0 <= i < shortlist(summary, candidates, limit).len() ==> candidates.contains(
                #[trigger] shortlist(summary, candidates, limit)[i],
            ),
{
    let list = shortlist(summary, candidates, limit);
    let ranked = ranking(summary, candidates);
    ranking_keeps_all(summary, candidates);
    ranked.to_multiset_ensures();
    candidates.to_multiset_ensures();
    assert forall|i: int| 0 <= i < list.len() implies candidates.contains(#[trigger] list[i]) by {
        assert(list[i] == ranked[i]);
        assert(ranked.contains(list[i]));
        assert(ranked.to_multiset().count(list[i]) > 0);
    }
}

fn rank(summary: &str, ranked: &Vec<ClusterCandidate>, c: &ClusterCandidate) -> (r: usize)
    ensures
        r == rank_from(summary@, ranked@, *c, 0),
        r <= ranked.len(),
{
    let mine = jaccard(summary, c.summary.as_str());
    let mut i: usize = 0;
    while i < ranked.len()
        invariant
            i <= ranked.len(),
            mine.valid(),
            (mine.shared as int, mine.total as int) == score_of(summary@, *c),
            rank_from(summary@, ranked@, *c, 0) == rank_from(summary@, ranked@, *c, i as int),
        decreases ranked.len() - i,
    {
        let theirs = jaccard(summary, ranked[i].summary.as_str());
        if theirs.is_below(&mine) {
            return i;
        }
        i = i + 1;
    }
    i
}

/// The best `limit` candidates for a summary, from the best fit down.
pub fn prefilter(new_summary: &str, candidates: &Vec<ClusterCandidate>, limit: usize) -> (list: Vec<
    ClusterCandidate,
>)
    ensures
        list@ == shortlist(new_summary@, candidates@, limit as int),
{
    let mut ranked: Vec<ClusterCandidate> = Vec::new();
    let mut i: usize = 0;
    assert(candidates@.take(0) =~= Seq::empty());
    while i < candidates.len()
        invariant
            i <= candidates.len(),
            ranked@ == ranking(new_summary@, candidates@.take(i as int)),
        decreases candidates.len() - i,
    {
        assert(candidates@.take(i as int + 1).drop_last() =~= candidates@.take(i as int));
        let p: usize = rank(new_summary, &ranked, &candidates[i]);
        ranked.insert(p, candidates[i].copy());
        i = i + 1;
    }
    assert(candidates@.take(i as int) =~= candidates@);
    ranked.truncate(limit);
    assert(ranked@ =~= shortlist(new_summary@, candidates@, limit as int));
    ranked
}

// ---------------------------------------------------------------------------
// Deciding
// ---------------------------------------------------------------------------

/// The candidate that fits best, the last one of those that fit alike.
pub open spec fn best(summary: Seq<char>, candidates: Seq<ClusterCandidate>) -> ClusterCandidate
    decreases candidates.len(),
{
    if candidates.len() <= 1 {
        candidates[0]
    } else {
        let b = best(summary, candidates.drop_last());
        if less(score_of(summary, candidates.last()), score_of(summary, b)) {
            b
        } else {
            candidates.last()
        }
    }
}

/// What the words alone decide: the best candidate, where the similarity is three fifths or
/// more.
pub open spec fn lexical_choice(
    summary: Seq<char>,
    candidates: Seq<ClusterCandidate>,
) -> Option<Seq<char>> {
    if candidates.len() == 0 {
        None
    } else {
        let b = best(summary, candidates);
        let score = score_of(summary, b);
        if 5 * score.0 >= 3 * score.1 {
            Some(b.app_id@)
        } else {
            None
        }
    }
}

impl View for ClusterDecision {
    type V = Option<Seq<char>>;

    /// The app to join, if any.
    open spec fn view(&self) -> Option<Seq<char>> {
        match self {
            ClusterDecision::Join { app_id } => Some(app_id@),
            ClusterDecision::New => None,
        }
    }
}

/// Decides by the words alone.
pub fn lexical_fallback(new_summary: &str, candidates: &Vec<ClusterCandidate>) -> (decision:
    ClusterDecision)
    ensures
        decision@ == lexical_choice(new_summary@, candidates@),
{
    if candidates.len() == 0 {
        return ClusterDecision::New;
    }
    let mut k: usize = 0;
    let mut score = jaccard(new_summary, candidates[0].summary.as_str());
    let mut i: usize = 1;
    assert(candidates@.take(1)[0] == candidates@[0]);
    while i < candidates.len()
        invariant
            1 <= i <= candidates.len(),
            k < i,
            candidates@[k as int] == best(new_summary@, candidates@.take(i as int)),
            score.valid(),
            (score.shared as int, score.total as int) == score_of(
                new_summary@,
                candidates@[k as int],
            ),
        decreases candidates.len() - i,
    {
        assert(candidates@.take(i as int + 1).drop_last() =~= candidates@.take(i as int));
        assert(candidates@.take(i as int + 1).last() == candidates@[i as int]);
        let s = jaccard(new_summary, candidates[i].summary.as_str());
        if !s.is_below(&score) {
            k = i;
            score = s;
        }
        i = i + 1;
    }
    assert(candidates@.take(i as int) =~= candidates@);
    if 5 * score.shared >= 3 * score.total {
        ClusterDecision::Join { app_id: candidates[k].app_id.clone() }
    } else {
        ClusterDecision::New
    }
}

/// What a model's answer says.
#[derive(Debug, Clone, PartialEq, Eq)]
pub struct LlmClassifyResponse {
    pub decision: Option<String>,
    pub index: Option<usize>,
}

/// What came back from a model: nothing, something that is no answer, or an answer.
#[derive(Debug, Clone, PartialEq, Eq)]
pub enum ModelAnswer {
    Failed,
    Unreadable,
    Read(LlmClassifyResponse),
}

/// The candidate that an answer names: it says to join, and its number is on the list.
pub open spec fn named_choice(r: LlmClassifyResponse, list: Seq<ClusterCandidate>) -> Option<
    Seq<char>,
> {
    match (r.decision, r.index) {
        (Some(d), Some(i)) => if d@ == "join"@ && i < list.len() {
            Some(list[i as int].app_id@)
        } else {
            None
        },
        _ => None,
    }
}

/// The decision for a summary and a list of candidates, given a model's answer about the
/// shortlist: what the answer names, a new app where it cannot be read, and what the words
/// decide where there is none.
pub open spec fn choice(
    summary: Seq<char>,
    candidates: Seq<ClusterCandidate>,
    answer: ModelAnswer,
) -> Option<Seq<char>> {
    let list = shortlist(summary, candidates, MAX_LLM_CANDIDATES as int);
    if candidates.len() == 0 {
        None
    } else {
        match answer {
            ModelAnswer::Failed => lexical_choice(summary, list),
            ModelAnswer::Unreadable => None,
            ModelAnswer::Read(r) => named_choice(r, list),
        }
    }
}

/// Reads a decision from a model's answer.
pub fn parse_decision(response: &LlmClassifyResponse, list: &Vec<ClusterCandidate>) -> (decision:
    ClusterDecision)
    ensures
        decision@ == named_choice(*response, list@),
{
    match (&response.decision, response.index) {
        (Some(d), Some(i)) => {
            if text::same(d.as_str(), "join") && i < list.len() {
                ClusterDecision::Join { app_id: list[i].app_id.clone() }
            } else {
                ClusterDecision::New
            }
        },
        _ => ClusterDecision::New,
    }
}

/// Decides with a model's answer about the shortlist.
pub fn decide_with(
    new_summary: &str,
    candidates: &Vec<ClusterCandidate>,
    answer: &ModelAnswer,
) -> (decision: ClusterDecision)
    ensures
        decision@ == choice(new_summary@, candidates@, *answer),
{
    if candidates.len() == 0 {
        return ClusterDecision::New;
    }
    let list = prefilter(new_summary, candidates, MAX_LLM_CANDIDATES);
    match answer {
        ModelAnswer::Failed => lexical_fallback(new_summary, &list),
        ModelAnswer::Unreadable => ClusterDecision::New,
        ModelAnswer::Read(r) => parse_decision(r, &list),
    }
}

proof fn best_is_a_candidate(summary: Seq<char>, candidates: Seq<ClusterCandidate>)
    requires
        candidates.len() > 0,
    ensures
        exists|i: int| 0 <= i < candidates.len() && candidates[i] == best(summary, candidates),
    decreases candidates.len(),
{
    if candidates.len() == 1 {
        assert(candidates[0] == best(summary, candidates));
    } else {
        let init = candidates.drop_last();
        best_is_a_candidate(summary, init);
        let i = choose|i: int| 0 <= i < init.len() && init[i] == best(summary, init);
        assert(candidates[i] == init[i]);
        assert(candidates[candidates.len() - 1] == candidates.last());
    }
}

/// Whatever a model answers, a decision to join names one of the candidates.
pub proof fn choice_is_a_candidate(
    summary: Seq<char>,
    candidates: Seq<ClusterCandidate>,
    answer: ModelAnswer,
)
    ensures
        choice(summary, candidates, answer) matches Some(id) ==> exists|i: int|
            0 <= i < candidates.len() && (#[trigger] candidates[i]).app_id@ == id,
{
    if let Some(id) = choice(summary, candidates, answer) {
        let list = shortlist(summary, candidates, MAX_LLM_CANDIDATES as int);
        shortlist_is_a_part(summary, candidates, MAX_LLM_CANDIDATES as int);
        let k = match answer {
            ModelAnswer::Failed => {
                best_is_a_candidate(summary, list);
                choose|i: int| 0 <= i < list.len() && list[i] == best(summary, list)
            },
            ModelAnswer::Read(r) => r.index->0 as int,
            ModelAnswer::Unreadable => 0,
        };
        assert(candidates.contains(list[k]));
        let i = choose|i: int| 0 <= i < candidates.len() && candidates[i] == list[k];
        assert(candidates[i].app_id@ == id);
    }
}

// ---------------------------------------------------------------------------
// Asking a model
// ---------------------------------------------------------------------------

const INSTRUCTIONS: &'static str = "You are a conversation-clustering assistant. You are given a new conversation summary and a numbered list of existing app summaries. Decide whether the new conversation belongs with one of the existing apps (because they share the same task or topic) or should start a new app.\n\nReturn ONLY a JSON object:\n- To join app number N: {\"decision\":\"join\",\"index\":N}\n- To start a new app:   {\"decision\":\"new\"}\n\nBe conservative: only join when the topics clearly match. When in doubt, choose \"new\". No explanation, no markdown fences.";

/// The instructions for the model.
pub closed spec fn instructions() -> Seq<char> {
    INSTRUCTIONS@
}

/// The first `n` candidates, each with its number on a line of its own.
pub open spec fn listing(candidates: Seq<ClusterCandidate>, n: int) -> Seq<char>
    decreases n,
{
    if n <= 0 {
        Seq::empty()
    } else {
        listing(candidates, n - 1) + (text::decimal((n - 1) as nat) + ": "@
            + candidates[n - 1].summary@ + "\n"@)
    }
}

/// What the model is asked about a summary and a list of candidates.
pub open spec fn question(summary: Seq<char>, candidates: Seq<ClusterCandidate>) -> Seq<char> {
    "New conversation summary:\n"@ + summary + "\n\nExisting apps:\n"@ + listing(
        candidates,
        candidates.len() as int,
    )
}

/// A message that gives the instructions.
pub open spec fn instructs(m: Message) -> bool {
    m matches Message::System { content } && content@ == instructions()
}

/// A message that asks about a summary and a list of candidates.
pub open spec fn inquires(m: Message, summary: Seq<char>, candidates: Seq<ClusterCandidate>) -> bool {
    m matches Message::User { content: UserContent::Text(t) } && t@ == question(summary, candidates)
}

/// The instructions as a message.
pub fn system_message() -> (m: Message)
    ensures
        instructs(m),
{
    Message::System { content: INSTRUCTIONS.to_string() }
}

/// The question as a message.
pub fn user_message(new_summary: &str, candidates: &Vec<ClusterCandidate>) -> (m: Message)
    ensures
        inquires(m, new_summary@, candidates@),
{
    let mut content: String = text::concat3(
        "New conversation summary:\n",
        new_summary,
        "\n\nExisting apps:\n",
    );
    let ghost head = content@;
    let mut i: usize = 0;
    assert(head + listing(candidates@, 0) =~= head);
    while i < candidates.len()
        invariant
            i <= candidates.len(),
            content@ == head + listing(candidates@, i as int),
        decreases candidates.len() - i,
    {
        let number = text::decimal_string(i as u64);
        content.append(number.as_str());
        content.append(": ");
        content.append(candidates[i].summary.as_str());
        content.append("\n");
        assert(content@ =~= head + listing(candidates@, i as int + 1));
        i = i + 1;
    }
    Message::User { content: UserContent::Text(content) }
}

/// A model that can be asked. What it answers is its own affair.
pub trait ModelApi: Send + Sync {
    fn ask(&self, system: &Message, user: &Message) -> ModelAnswer;
}

/// A decision that goes by what the model answers about the shortlist. Where there are no
/// candidates nothing is asked, and there is nothing to join.
pub open spec fn decided_by<M: ModelApi>(
    model: M,
    summary: Seq<char>,
    candidates: Seq<ClusterCandidate>,
    decision: Option<Seq<char>>,
) -> bool {
    if candidates.len() == 0 {
        decision is None
    } else {
        exists|system: Message, user: Message, answer: ModelAnswer|
            {
                &&& instructs(system)
                &&& inquires(user, summary, shortlist(summary, candidates, MAX_LLM_CANDIDATES as int))
                &&& #[trigger] call_ensures(M::ask, (&model, &system, &user), answer)
                &&& decision == choice(summary, candidates, answer)
            }
    }
}

/// A decision that goes by some answer is one that an answer could have given.
proof fn decided_by_an_answer<M: ModelApi>(
    model: M,
    summary: Seq<char>,
    candidates: Seq<ClusterCandidate>,
    decision: Option<Seq<char>>,
) -> (answer: ModelAnswer)
    requires
        decided_by(model, summary, candidates, decision),
    ensures
        decision == choice(summary, candidates, answer),
{
    if candidates.len() == 0 {
        ModelAnswer::Failed
    } else {
        let (_, _, answer) = choose|system: Message, user: Message, answer: ModelAnswer|
            {
                &&& instructs(system)
                &&& inquires(user, summary, shortlist(summary, candidates, MAX_LLM_CANDIDATES as int))
                &&& #[trigger] call_ensures(M::ask, (&model, &system, &user), answer)
                &&& decision == choice(summary, candidates, answer)
            };
        answer
    }
}

/// A clusterer that asks a model about the shortlist.
pub struct LlmClusterer<M: ModelApi> {
    client: M,
}

impl<M: ModelApi> LlmClusterer<M> {
    /// The model that is asked.
    pub closed spec fn model(&self) -> M {
        self.client
    }

    pub fn new(client: M) -> (clusterer: Self)
        ensures
            clusterer.model() == client,
    {
        LlmClusterer { client }
    }

    fn decide(&self, new_summary: &str, candidates: &Vec<ClusterCandidate>) -> (decision:
        ClusterDecision)
        ensures
            decided_by(self.model(), new_summary@, candidates@, decision@),
    {
        if candidates.len() == 0 {
            return ClusterDecision::New;
        }
        let list = prefilter(new_summary, candidates, MAX_LLM_CANDIDATES);
        let system = system_message();
        let user = user_message(new_summary, &list);
        let answer = self.client.ask(&system, &user);
        assert(call_ensures(M::ask, (&self.client, &system, &user), answer));
        decide_with(new_summary, candidates, &answer)
    }
}

/// The candidates other than an app.
pub open spec fn others(candidates: Seq<ClusterCandidate>, app_id: Seq<char>) -> Seq<
    ClusterCandidate,
>
    decreases candidates.len(),
{
    if candidates.len() == 0 {
        Seq::empty()
    } else if candidates.last().app_id@ == app_id {
        others(candidates.drop_last(), app_id)
    } else {
        others(candidates.drop_last(), app_id).push(candidates.last())
    }
}

proof fn others_are_candidates(candidates: Seq<ClusterCandidate>, app_id: Seq<char>)
    ensures
        forall|i: int|
            0 <= i < others(candidates, app_id).len() ==> {
                &&& candidates.contains(#[trigger] others(candidates, app_id)[i])
                &&& others(candidates, app_id)[i].app_id@ != app_id
            },
    decreases candidates.len(),
{
    if candidates.len() > 0 {
        let init = candidates.drop_last();
        others_are_candidates(init, app_id);
        let list = others(candidates, app_id);
        assert forall|i: int| 0 <= i < list.len() implies candidates.contains(#[trigger] list[i])
            && list[i].app_id@ != app_id by {
            if i < others(init, app_id).len() {
                assert(list[i] == others(init, app_id)[i]);
                let k = choose|k: int| 0 <= k < init.len() && init[k] == list[i];
                assert(candidates[k] == list[i]);
            } else {
                assert(candidates[candidates.len() - 1] == list[i]);
            }
        }
    }
}

/// The candidates other than an app.
pub fn exclude(candidates: &Vec<ClusterCandidate>, app_id: &str) -> (list: Vec<ClusterCandidate>)
    ensures
        list@ == others(candidates@, app_id@),
{
    let mut list: Vec<ClusterCandidate> = Vec::new();
    let mut i: usize = 0;
    while i < candidates.len()
        invariant
            i <= candidates.len(),
            list@ == others(candidates@.take(i as int), app_id@),
        decreases candidates.len() - i,
    {
        assert(candidates@.take(i as int + 1).drop_last() =~= candidates@.take(i as int));
        if !text::same(candidates[i].app_id.as_str(), app_id) {
            list.push(candidates[i].copy());
        }
        i = i + 1;
    }
    assert(candidates@.take(i as int) =~= candidates@);
    list
}

impl<M: ModelApi> Clusterer for LlmClusterer<M> {
    fn classify(&self, new_summary: &str, candidates: &Vec<ClusterCandidate>) -> (decision:
        ClusterDecision)
        ensures
            decided_by(self.model(), new_summary@, candidates@, decision@),
    {
        let decision = self.decide(new_summary, candidates);
        proof {
            let answer = decided_by_an_answer(
                self.model(),
                new_summary@,
                candidates@,
                decision@,
            );
            choice_is_a_candidate(new_summary@, candidates@, answer);
        }
        decision
    }

    fn reevaluate(
        &self,
        member_summary: &str,
        current_app_id: &str,
        candidates: &Vec<ClusterCandidate>,
    ) -> (decision: ClusterDecision)
        ensures
            decided_by(
                self.model(),
                member_summary@,
                others(candidates@, current_app_id@),
                decision@,
            ),
    {
        let list = exclude(candidates, current_app_id);
        let decision = self.decide(member_summary, &list);
        proof {
            let answer = decided_by_an_answer(self.model(), member_summary@, list@, decision@);
            choice_is_a_candidate(member_summary@, list@, answer);
            others_are_candidates(candidates@, current_app_id@);
            if let Some(id) = decision@ {
                let i = choose|i: int| 0 <= i < list@.len() && (#[trigger] list@[i]).app_id@ == id;
                let k = choose|k: int| 0 <= k < candidates@.len() && candidates@[k] == list@[i];
                assert(candidates@[k].app_id@ == id);
            }
        }
        decision
    }
}

// ---------------------------------------------------------------------------
// What holds of questions and decisions
// ---------------------------------------------------------------------------

proof fn listing_looks_no_further(a: Seq<ClusterCandidate>, b: Seq<ClusterCandidate>, n: int)
    requires
        n <= a.len(),
        n <= b.len(),
        forall|i: int| 0 <= i < n ==> a[i] == b[i],
    ensures
        listing(a, n) == listing(b, n),
    decreases n,
{
    if n > 0 {
        listing_looks_no_further(a, b, n - 1);
    }
}

/// One more app at the end of the list is one more line at the end of the question: the number of
/// apps before it, and its summary. Without apps the question ends where the lines would start.
pub proof fn question_grows_by_a_line(
    summary: Seq<char>,
    list: Seq<ClusterCandidate>,
    c: ClusterCandidate,
)
    ensures
        question(summary, Seq::empty()) == "New conversation summary:\n"@ + summary
            + "\n\nExisting apps:\n"@,
        question(summary, list.push(c)) == question(summary, list) + text::decimal(list.len())
            + ": "@ + c.summary@ + "\n"@,
{
    listing_looks_no_further(list, list.push(c), list.len() as int);
    assert(question(summary, Seq::empty()) =~= "New conversation summary:\n"@ + summary
        + "\n\nExisting apps:\n"@);
    assert(question(summary, list.push(c)) =~= question(summary, list) + text::decimal(list.len())
        + ": "@ + c.summary@ + "\n"@);
}

/// The question is its head and then a line for each app, in the order of the list, with the app's
/// place in the list and its summary.
pub proof fn question_is_its_lines(summary: Seq<char>, list: Seq<ClusterCandidate>)
    ensures
        question(summary, list) == "New conversation summary:\n"@ + summary
            + "\n\nExisting apps:\n"@ + Seq::new(
            list.len(),
            |i: int| text::decimal(i as nat) + ": "@ + list[i].summary@ + "\n"@,
        ).flatten(),
    decreases list.len(),
{
    let lines = Seq::new(
        list.len(),
        |i: int| text::decimal(i as nat) + ": "@ + list[i].summary@ + "\n"@,
    );
    if list.len() == 0 {
        question_grows_by_a_line(summary, list, arbitrary());
        assert(list =~= Seq::empty());
        assert(lines.flatten() =~= Seq::<char>::empty());
        assert(question(summary, list) =~= "New conversation summary:\n"@ + summary
            + "\n\nExisting apps:\n"@ + lines.flatten());
    } else {
        let init = list.drop_last();
        question_is_its_lines(summary, init);
        question_grows_by_a_line(summary, init, list.last());
        assert(init.push(list.last()) =~= list);
        let before = Seq::new(
            init.len(),
            |i: int| text::decimal(i as nat) + ": "@ + init[i].summary@ + "\n"@,
        );
        assert(lines.drop_last() =~= before);
        lines.lemma_flatten_and_flatten_alt_are_equivalent();
        before.lemma_flatten_and_flatten_alt_are_equivalent();
        assert(lines.flatten() == before.flatten() + lines.last());
        assert(question(summary, list) =~= "New conversation summary:\n"@ + summary
            + "\n\nExisting apps:\n"@ + lines.flatten());
    }
}

/// A number in the model's answer names the app that stands on the line of that number: the line
/// comes right behind those of the apps before it.
pub proof fn number_names_the_app_on_its_line(
    summary: Seq<char>,
    list: Seq<ClusterCandidate>,
    r: LlmClassifyResponse,
    i: usize,
)
    requires
        i < list.len(),
        r.index == Some(i),
        r.decision matches Some(d) && d@ == "join"@,
    ensures
        named_choice(r, list) == Some(list[i as int].app_id@),
        (question(summary, list.take(i as int)) + text::decimal(i as nat) + ": "@
            + list[i as int].summary@ + "\n"@).is_prefix_of(question(summary, list)),
{
    let upto = list.take(i as int + 1);
    question_grows_by_a_line(summary, list.take(i as int), list[i as int]);
    assert(list.take(i as int).push(list[i as int]) =~= upto);
    question_goes_on(summary, list, i as int + 1);
}

/// The question about the first apps of a list is the start of that about the list.
pub proof fn question_goes_on(summary: Seq<char>, list: Seq<ClusterCandidate>, n: int)
    requires
        0 <= n <= list.len(),
    ensures
        question(summary, list.take(n)).is_prefix_of(question(summary, list)),
    decreases list.len() - n,
{
    if n == list.len() {
        assert(list.take(n) =~= list);
    } else {
        question_goes_on(summary, list, n + 1);
        question_grows_by_a_line(summary, list.take(n), list[n]);
        assert(list.take(n).push(list[n]) =~= list.take(n + 1));
        let a = question(summary, list.take(n));
        let b = question(summary, list.take(n + 1));
        let q = question(summary, list);
        assert(a =~= b.take(a.len() as int));
        assert(b =~= q.take(b.len() as int));
        assert(a =~= q.take(a.len() as int));
    }
}

/// Where both summaries have words, they share those that both have, out of those that either has:
/// the two numbers add up to the words of the one and the words of the other. Without words on
/// either side nothing is shared.
pub proof fn shared_words_are_counted(a: Seq<char>, b: Seq<char>)
    ensures
        words(a).finite() && words(b).finite(),
        words(a).len() > 0 && words(b).len() > 0 ==> {
            &&& similarity(a, b).0 == words(a).intersect(words(b)).len()
            &&& similarity(a, b).0 + similarity(a, b).1 == words(a).len() + words(b).len()
        },
        words(a).len() == 0 || words(b).len() == 0 ==> similarity(a, b).0 == 0,
{
    words_are_finite(a, a.len() as int);
    words_are_finite(b, b.len() as int);
    vstd::set_lib::lemma_set_intersect_union_lens(words(a), words(b));
    if words(a).len() == 0 {
        words(a).lemma_len0_is_empty();
    }
    if words(b).len() == 0 {
        words(b).lemma_len0_is_empty();
    }
}

/// The words of two texts with a character between them that belongs to no word are those of the
/// one and those of the other.
pub proof fn words_of_two_texts(a: Seq<char>, c: char, b: Seq<char>)
    requires
        !alphanumeric(c),
    ensures
        words(a + seq![c] + b) == words(a).union(words(b)),
{
    let s = a + seq![c] + b;
    let n = a.len() as int;
    assert(s[n] == c);
    assert forall|w: Seq<char>| words(s).contains(w) == words(a).union(words(b)).contains(w) by {
        if word_until(s, s.len() as int, w) {
            let (x, y) = choose|x: int, y: int| #[trigger]
                is_word(s, x, y) && y <= s.len() && lowercase(s.subrange(x, y)) == w;
            if x <= n {
                assert(y <= n) by {
                    if y > n {
                        assert(alphanumeric(s[n]));
                    }
                }
                assert(s.subrange(x, y) =~= a.subrange(x, y));
                assert forall|k: int| x <= k < y implies alphanumeric(#[trigger] a[k]) by {
                    assert(s[k] == a[k]);
                }
                assert(x > 0 ==> s[x - 1] == a[x - 1]);
                assert(y < n ==> s[y] == a[y]);
                assert(is_word(a, x, y));
            } else {
                let d = n + 1;
                assert(s.subrange(x, y) =~= b.subrange(x - d, y - d));
                assert forall|k: int| x - d <= k < y - d implies alphanumeric(
                    #[trigger] b[k],
                ) by {
                    assert(s[k + d] == b[k]);
                }
                assert(x - d > 0 ==> s[x - 1] == b[x - d - 1]);
                assert(y < s.len() ==> s[y] == b[y - d]);
                assert(is_word(b, x - d, y - d));
            }
        }
        if word_until(a, n, w) {
            let (x, y) = choose|x: int, y: int| #[trigger]
                is_word(a, x, y) && y <= n && lowercase(a.subrange(x, y)) == w;
            assert(s.subrange(x, y) =~= a.subrange(x, y));
            assert forall|k: int| x <= k < y implies alphanumeric(#[trigger] s[k]) by {
                assert(s[k] == a[k]);
            }
            assert(x > 0 ==> s[x - 1] == a[x - 1]);
            assert(y < n ==> s[y] == a[y]);
            assert(is_word(s, x, y));
        }
        if word_until(b, b.len() as int, w) {
            let (x, y) = choose|x: int, y: int| #[trigger]
                is_word(b, x, y) && y <= b.len() && lowercase(b.subrange(x, y)) == w;
            let d = n + 1;
            assert(s.subrange(x + d, y + d) =~= b.subrange(x, y));
            assert forall|k: int| x + d <= k < y + d implies alphanumeric(#[trigger] s[k]) by {
                assert(s[k] == b[k - d]);
            }
            assert(x > 0 ==> s[x + d - 1] == b[x - 1]);
            assert(y + d < s.len() ==> s[y + d] == b[y]);
            assert(is_word(s, x + d, y + d));
        }
    }
    assert(words(s) =~= words(a).union(words(b)));
}

/// A text of letters and digits alone is one word, in lower case; an empty text has none.
pub proof fn a_run_is_one_word(s: Seq<char>)
    requires
        forall|k: int| 0 <= k < s.len() ==> alphanumeric(#[trigger] s[k]),
    ensures
        s.len() > 0 ==> words(s) == set![lowercase(s)],
        s.len() == 0 ==> words(s) == Set::<Seq<char>>::empty(),
{
    if s.len() > 0 {
        assert(is_word(s, 0, s.len() as int));
        assert(s.subrange(0, s.len() as int) =~= s);
        assert forall|w: Seq<char>| words(s).contains(w) == (w == lowercase(s)) by {
            if word_until(s, s.len() as int, w) {
                let (x, y) = choose|x: int, y: int| #[trigger]
                    is_word(s, x, y) && y <= s.len() && lowercase(s.subrange(x, y)) == w;
                assert(x == 0) by {
                    if x > 0 {
                        assert(alphanumeric(s[x - 1]));
                    }
                }
                assert(y == s.len()) by {
                    if y < s.len() {
                        assert(alphanumeric(s[y]));
                    }
                }
            }
        }
        assert(words(s) =~= set![lowercase(s)]);
    } else {
        assert(words(s) =~= Set::<Seq<char>>::empty());
    }
}

/// The most similar come first: the share of words in common never grows along the ranking.
pub proof fn most_similar_come_first(summary: Seq<char>, candidates: Seq<ClusterCandidate>)
    ensures
        forall|i: int, j: int|
            0 <= i <= j < ranking(summary, candidates).len() ==> {
                let a = similarity(summary, (#[trigger] ranking(summary, candidates)[i]).summary@);
                let b = similarity(summary, (#[trigger] ranking(summary, candidates)[j]).summary@);
                a.0 * b.1 >= b.0 * a.1
            },
{
    ranking_is_sorted(summary, candidates);
    let r = ranking(summary, candidates);
    assert forall|i: int, j: int| 0 <= i <= j < r.len() implies {
        let a = similarity(summary, (#[trigger] r[i]).summary@);
        let b = similarity(summary, (#[trigger] r[j]).summary@);
        a.0 * b.1 >= b.0 * a.1
    } by {
        assert(!less(score_of(summary, r[i]), score_of(summary, r[j])));
    }
}

/// A candidate that comes last in the list takes its place behind all that are as similar as it,
/// and before all that are less; the others keep their order.
pub proof fn equals_keep_their_order(
    summary: Seq<char>,
    candidates: Seq<ClusterCandidate>,
    c: ClusterCandidate,
)
    ensures
        exists|k: int|
            {
                &&& 0 <= k <= ranking(summary, candidates).len()
                &&& ranking(summary, candidates.push(c)) == #[trigger] ranking(
                    summary,
                    candidates,
                ).insert(k, c)
                &&& forall|x: int|
                    0 <= x < ranking(summary, candidates).len() ==> {
                        let a = similarity(
                            summary,
                            (#[trigger] ranking(summary, candidates)[x]).summary@,
                        );
                        let b = similarity(summary, c.summary@);
                        x < k <==> a.0 * b.1 >= b.0 * a.1
                    }
            },
{
    let r = ranking(summary, candidates);
    assert(candidates.push(c).drop_last() =~= candidates);
    rank_bounds(summary, r, c, 0);
    let k = rank_from(summary, r, c, 0);
    most_similar_come_first(summary, candidates);
    ranking_is_sorted(summary, candidates);
    assert(ranking(summary, candidates.push(c)) == r.insert(k, c));
    assert forall|x: int| 0 <= x < r.len() implies {
        let a = similarity(summary, (#[trigger] r[x]).summary@);
        let b = similarity(summary, c.summary@);
        x < k <==> a.0 * b.1 >= b.0 * a.1
    } by {
        if x < k {
            assert(!less(score_of(summary, r[x]), score_of(summary, c)));
        } else {
            let at = score_of(summary, r[k]);
            let there = score_of(summary, r[x]);
            let new = score_of(summary, c);
            similarity_is_a_fraction(summary, r[k].summary@);
            similarity_is_a_fraction(summary, r[x].summary@);
            similarity_is_a_fraction(summary, c.summary@);
            assert(less(at, new));
            assert(!less(at, there));
            less_chain(at, there, new);
        }
    }
}

/// The shortlist is the start of the ranking.
pub proof fn shortlist_is_the_start(
    summary: Seq<char>,
    candidates: Seq<ClusterCandidate>,
    limit: int,
)
    requires
        0 <= limit,
    ensures
        shortlist(summary, candidates, limit).is_prefix_of(ranking(summary, candidates)),
{
}

/// Without a model the most similar candidate is chosen, of several the last, and only where at
/// least three of five words are shared.
pub proof fn most_similar_is_chosen(summary: Seq<char>, candidates: Seq<ClusterCandidate>)
    requires
        candidates.len() > 0,
    ensures
        exists|i: int|
            {
                &&& 0 <= i < candidates.len()
                &&& forall|j: int|
                    0 <= j < candidates.len() ==> {
                        let a = similarity(summary, candidates[i].summary@);
                        let b = similarity(summary, (#[trigger] candidates[j]).summary@);
                        &&& a.0 * b.1 >= b.0 * a.1
                        &&& j > i ==> a.0 * b.1 > b.0 * a.1
                    }
                &&& lexical_choice(summary, candidates) == (if 5 * similarity(
                    summary,
                    (#[trigger] candidates[i]).summary@,
                ).0 >= 3 * similarity(summary, candidates[i].summary@).1 {
                    Some(candidates[i].app_id@)
                } else {
                    None
                })
            },
{
    let i = best_at(summary, candidates);
    assert(candidates[i] == best(summary, candidates));
}

proof fn best_at(summary: Seq<char>, candidates: Seq<ClusterCandidate>) -> (i: int)
    requires
        candidates.len() > 0,
    ensures
        0 <= i < candidates.len(),
        candidates[i] == best(summary, candidates),
        forall|j: int|
            0 <= j < candidates.len() ==> {
                let a = similarity(summary, candidates[i].summary@);
                let b = similarity(summary, (#[trigger] candidates[j]).summary@);
                &&& a.0 * b.1 >= b.0 * a.1
                &&& j > i ==> a.0 * b.1 > b.0 * a.1
            },
    decreases candidates.len(),
{
    if candidates.len() == 1 {
        0
    } else {
        let init = candidates.drop_last();
        let c = candidates.last();
        let k = best_at(summary, init);
        let new = score_of(summary, c);
        let old_best = score_of(summary, init[k]);
        similarity_is_a_fraction(summary, c.summary@);
        similarity_is_a_fraction(summary, init[k].summary@);
        if less(new, old_best) {
            assert forall|j: int| 0 <= j < candidates.len() implies {
                let a = similarity(summary, candidates[k].summary@);
                let b = similarity(summary, (#[trigger] candidates[j]).summary@);
                &&& a.0 * b.1 >= b.0 * a.1
                &&& j > k ==> a.0 * b.1 > b.0 * a.1
            } by {
                if j < init.len() {
                    assert(candidates[j] == init[j]);
                }
            }
            k
        } else {
            let last = candidates.len() - 1;
            assert forall|j: int| 0 <= j < candidates.len() implies {
                let a = similarity(summary, candidates[last].summary@);
                let b = similarity(summary, (#[trigger] candidates[j]).summary@);
                &&& a.0 * b.1 >= b.0 * a.1
                &&& j > last ==> a.0 * b.1 > b.0 * a.1
            } by {
                if j < init.len() {
                    assert(candidates[j] == init[j]);
                    similarity_is_a_fraction(summary, init[j].summary@);
                    let there = score_of(summary, init[j]);
                    if less(new, there) {
                        less_chain(new, old_best, there);
                    }
                }
            }
            last
        }
    }
}

/// Only a readable answer that says to join and names a place in the list joins; a model that was
/// not reached is replaced by the similarity of words, and without candidates nothing is joined.
pub proof fn what_an_answer_decides(
    summary: Seq<char>,
    candidates: Seq<ClusterCandidate>,
    r: LlmClassifyResponse,
)
    ensures
        choice(summary, candidates, ModelAnswer::Unreadable) is None,
        choice(summary, Seq::empty(), ModelAnswer::Failed) is None,
        choice(summary, Seq::empty(), ModelAnswer::Read(r)) is None,
        ({
            let list = shortlist(summary, candidates, MAX_LLM_CANDIDATES as int);
            &&& candidates.len() > 0 ==> choice(summary, candidates, ModelAnswer::Failed)
                == lexical_choice(summary, list)
            &&& choice(summary, candidates, ModelAnswer::Read(r)) is Some <==> candidates.len() > 0
                && (r.decision matches Some(d) && d@ == "join"@) && (r.index matches Some(i) && i
                < list.len())
            &&& choice(summary, candidates, ModelAnswer::Read(r)) matches Some(id) ==> id
                == list[r.index->0 as int].app_id@
        }),
{
}

/// Of the candidates, those of other apps are left, all of them and in their order.
pub proof fn others_add_up(
    a: Seq<ClusterCandidate>,
    b: Seq<ClusterCandidate>,
    c: ClusterCandidate,
    app_id: Seq<char>,
)
    ensures
        others(a + b, app_id) == others(a, app_id) + others(b, app_id),
        others(seq![c], app_id) == (if c.app_id@ == app_id {
            Seq::empty()
        } else {
            seq![c]
        }),
    decreases b.len(),
{
    let one = seq![c];
    assert(one.drop_last() =~= Seq::<ClusterCandidate>::empty());
    reveal_with_fuel(others, 2);
    assert(others(one, app_id) =~= (if c.app_id@ == app_id {
        Seq::empty()
    } else {
        seq![c]
    }));
    if b.len() == 0 {
        assert(a + b =~= a);
        assert(others(a, app_id) + others(b, app_id) =~= others(a, app_id));
    } else {
        assert((a + b).drop_last() =~= a + b.drop_last());
        assert((a + b).last() == b.last());
        others_add_up(a, b.drop_last(), c, app_id);
        assert(others(a + b, app_id) =~= others(a, app_id) + others(b, app_id));
    }
}

/// The model is given the instructions, and is asked about the new conversation and the list.
pub proof fn messages_say_what_they_are_for(
    m: Message,
    summary: Seq<char>,
    candidates: Seq<ClusterCandidate>,
)
    ensures
        instructs(m) <==> (m matches Message::System { content } && content@ == instructions()),
        inquires(m, summary, candidates) <==> (m matches Message::User {
            content: UserContent::Text(t),
        } && t@ == question(summary, candidates)),
{
}

/// Where there are apps to choose from, what is decided comes from an answer of the model to a
/// question that lists them; where there are none, nothing is chosen.
pub proof fn an_answer_decides<M: ModelApi>(
    model: M,
    summary: Seq<char>,
    candidates: Seq<ClusterCandidate>,
    decision: Option<Seq<char>>,
)
    requires
        decided_by(model, summary, candidates, decision),
    ensures
        candidates.len() == 0 ==> decision is None,
        candidates.len() > 0 ==> exists|system: Message, user: Message, answer: ModelAnswer| #[trigger]
            call_ensures(M::ask, (&model, &system, &user), answer) && (user matches Message::User {
                content: UserContent::Text(t),
            } && t@ == question(
                summary,
                shortlist(summary, candidates, MAX_LLM_CANDIDATES as int),
            )) && decision == choice(summary, candidates, answer),
{
}

} // verus!
