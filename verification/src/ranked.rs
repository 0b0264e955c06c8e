use vstd::prelude::*;
use crate::score::score;
use crate::score::similarity_of;

verus! {

/// One selectable entry: an opaque resource handle and the display name that
/// could be derived from it, when one could be derived at all.
#[derive(Debug)]
pub struct Candidate {
    pub id: u64,
    pub name: Option<String>,
}

/// The ranking key of a candidate: the similarity of its name to the query.
/// A candidate without a derivable name ranks as if nothing matched.
pub open spec fn cand_score(q: Seq<char>, c: Candidate) -> u64 {
    match c.name {
        Some(n) => similarity_of(q, n@),
        None => 0,
    }
}

/// Ranking key of a candidate, computed.
pub fn candidate_score(query: &Vec<char>, c: &Candidate) -> (r: u64)
    ensures
        r == cand_score(query@, *c),
{
    match &c.name {
        Some(n) => score(query, n.as_str()),
        None => 0,
    }
}

/// Where a stable descending sort puts a newly arriving candidate `c` into an
/// already ranked sequence `s`: directly before the first entry it strictly
/// beats, and therefore after every entry that ties with it or beats it.
pub open spec fn insert_pos(q: Seq<char>, c: Candidate, s: Seq<Candidate>) -> int
    decreases s.len(),
{
    if s.len() == 0 {
        0
    } else if cand_score(q, c) > cand_score(q, s[0]) {
        0
    } else {
        1 + insert_pos(q, c, s.drop_first())
    }
}

/// The ranked sequence `s` with `c` inserted at its stable position.
pub open spec fn insert_ranked(q: Seq<char>, c: Candidate, s: Seq<Candidate>) -> Seq<Candidate> {
    s.insert(insert_pos(q, c, s), c)
}

/// The stable descending sort of `s` by similarity to `q`: every candidate is
/// inserted, in order of arrival, after all earlier candidates that score at
/// least as high. Ties therefore keep their previous relative order.
pub open spec fn rank(q: Seq<char>, s: Seq<Candidate>) -> Seq<Candidate>
    decreases s.len(),
{
    if s.len() == 0 {
        Seq::<Candidate>::empty()
    } else {
        insert_ranked(q, s.last(), rank(q, s.drop_last()))
    }
}

/// Descending order: every entry scores at least as high as every later one.
pub open spec fn ranked_descending(q: Seq<char>, s: Seq<Candidate>) -> bool {
    forall|i: int, j: int|
        #![trigger cand_score(q, s[i]), cand_score(q, s[j])]
        0 <= i <= j < s.len() ==> cand_score(q, s[i]) >= cand_score(q, s[j])
}

/// The stable position is within bounds, lies after every entry that scores at
/// least `c`, and before the first entry that `c` strictly beats.
pub proof fn lemma_insert_pos_props(q: Seq<char>, c: Candidate, s: Seq<Candidate>)
    ensures
        0 <= insert_pos(q, c, s) <= s.len(),
        forall|j: int| 0 <= j < insert_pos(q, c, s) ==> cand_score(q, #[trigger] s[j]) >= cand_score(q, c),
        insert_pos(q, c, s) < s.len() ==> cand_score(q, c) > cand_score(q, s[insert_pos(q, c, s)]),
    decreases s.len(),
{
    if s.len() == 0 {
    } else if cand_score(q, c) > cand_score(q, s[0]) {
    } else {
        let s1 = s.drop_first();
        lemma_insert_pos_props(q, c, s1);
        let p = insert_pos(q, c, s);
        assert forall|j: int| 0 <= j < p implies cand_score(q, #[trigger] s[j]) >= cand_score(q, c) by {
            if j > 0 {
                assert(s1[j - 1] == s[j]);
            }
        }
        if p < s.len() {
            assert(s1[p - 1] == s[p]);
        }
    }
}

/// Any index with the three properties above is the stable position.
pub proof fn lemma_insert_pos_unique(q: Seq<char>, c: Candidate, s: Seq<Candidate>, i: int)
    requires
        0 <= i <= s.len(),
        forall|j: int| 0 <= j < i ==> cand_score(q, #[trigger] s[j]) >= cand_score(q, c),
        i < s.len() ==> cand_score(q, c) > cand_score(q, s[i]),
    ensures
        i == insert_pos(q, c, s),
    decreases s.len(),
{
    if s.len() == 0 {
    } else if cand_score(q, c) > cand_score(q, s[0]) {
        if i > 0 {
            assert(cand_score(q, s[0]) >= cand_score(q, c));
        }
    } else {
        assert(i != 0);
        let s1 = s.drop_first();
        assert forall|j: int| 0 <= j < i - 1 implies cand_score(q, #[trigger] s1[j]) >= cand_score(q, c) by {
            assert(s1[j] == s[j + 1]);
        }
        if i - 1 < s1.len() {
            assert(s1[i - 1] == s[i]);
        }
        lemma_insert_pos_unique(q, c, s1, i - 1);
    }
}

/// Inserting one candidate adds exactly that candidate: the length grows by
/// one and the multiset of entries gains `c`.
pub proof fn lemma_insert_ranked_permutes(q: Seq<char>, c: Candidate, s: Seq<Candidate>)
    ensures
        insert_ranked(q, c, s).len() == s.len() + 1,
        insert_ranked(q, c, s).to_multiset() == s.to_multiset().insert(c),
{
    lemma_insert_pos_props(q, c, s);
    let pos = insert_pos(q, c, s);
    s.insert_ensures(pos, c);
    vstd::seq_lib::to_multiset_insert(s, pos, c);
}

/// Inserting at the stable position keeps the sequence in descending order.
pub proof fn lemma_insert_ranked_sorted(q: Seq<char>, c: Candidate, s: Seq<Candidate>)
    requires
        ranked_descending(q, s),
    ensures
        ranked_descending(q, insert_ranked(q, c, s)),
{
    lemma_insert_pos_props(q, c, s);
    let pos = insert_pos(q, c, s);
    let r = insert_ranked(q, c, s);
    s.insert_ensures(pos, c);
    assert forall|i: int, j: int|
        #![trigger cand_score(q, r[i]), cand_score(q, r[j])]
        0 <= i <= j < r.len() implies cand_score(q, r[i]) >= cand_score(q, r[j]) by {
        if i < pos {
            assert(r[i] == s[i]);
        } else if i == pos {
            assert(r[i] == c);
        } else {
            assert(r[i] == s[i - 1]);
        }
        if j < pos {
            assert(r[j] == s[j]);
        } else if j == pos {
            assert(r[j] == c);
        } else {
            assert(r[j] == s[j - 1]);
        }
    }
}

/// Ranking returns a permutation of exactly the given candidates, length
/// preserved.
pub proof fn lemma_rank_permutes(q: Seq<char>, s: Seq<Candidate>)
    ensures
        rank(q, s).len() == s.len(),
        rank(q, s).to_multiset() == s.to_multiset(),
    decreases s.len(),
{
    broadcast use vstd::seq_lib::group_to_multiset_ensures;

    if s.len() == 0 {
        assert(rank(q, s) =~= s);
    } else {
        let s0 = s.drop_last();
        let r0 = rank(q, s0);
        lemma_rank_permutes(q, s0);
        lemma_insert_ranked_permutes(q, s.last(), r0);
        assert(s =~= s0.push(s.last()));
        assert(s0.push(s.last()).to_multiset() == s0.to_multiset().insert(s.last()));
    }
}

/// The ranked sequence is in descending order of similarity.
pub proof fn lemma_rank_sorted(q: Seq<char>, s: Seq<Candidate>)
    ensures
        ranked_descending(q, rank(q, s)),
    decreases s.len(),
{
    if s.len() == 0 {
    } else {
        lemma_rank_sorted(q, s.drop_last());
        lemma_insert_ranked_sorted(q, s.last(), rank(q, s.drop_last()));
    }
}

/// A candidate that beats nothing goes to the very end.
pub proof fn lemma_insert_ranked_at_end(q: Seq<char>, c: Candidate, s: Seq<Candidate>)
    requires
        forall|j: int| 0 <= j < s.len() ==> cand_score(q, #[trigger] s[j]) >= cand_score(q, c),
    ensures
        insert_ranked(q, c, s) == s.push(c),
{
    lemma_insert_pos_unique(q, c, s, s.len() as int);
    assert(insert_ranked(q, c, s) =~= s.push(c));
}

/// A sequence that is already in descending order is its own ranking.
pub proof fn lemma_rank_of_ranked(q: Seq<char>, s: Seq<Candidate>)
    requires
        ranked_descending(q, s),
    ensures
        rank(q, s) == s,
    decreases s.len(),
{
    if s.len() == 0 {
        assert(rank(q, s) =~= s);
    } else {
        let s0 = s.drop_last();
        assert forall|i: int, j: int|
            #![trigger cand_score(q, s0[i]), cand_score(q, s0[j])]
            0 <= i <= j < s0.len() implies cand_score(q, s0[i]) >= cand_score(q, s0[j]) by {
            assert(s0[i] == s[i]);
            assert(s0[j] == s[j]);
        }
        lemma_rank_of_ranked(q, s0);
        assert forall|j: int| 0 <= j < s0.len() implies cand_score(q, #[trigger] s0[j]) >= cand_score(q, s.last()) by {
            assert(s0[j] == s[j]);
            assert(cand_score(q, s[j]) >= cand_score(q, s[s.len() - 1]));
        }
        lemma_insert_ranked_at_end(q, s.last(), s0);
        assert(s0.push(s.last()) =~= s);
    }
}

/// Re-sorting with an unchanged query is idempotent: a second ranking under
/// the same query changes nothing.
pub proof fn lemma_rank_idempotent(q: Seq<char>, s: Seq<Candidate>)
    ensures
        rank(q, rank(q, s)) == rank(q, s),
{
    lemma_rank_sorted(q, s);
    lemma_rank_of_ranked(q, rank(q, s));
}

/// No two entries tie under `q`.
pub open spec fn scores_distinct(q: Seq<char>, s: Seq<Candidate>) -> bool {
    forall|i: int, j: int|
        #![trigger cand_score(q, s[i]), cand_score(q, s[j])]
        0 <= i < j < s.len() ==> cand_score(q, s[i]) != cand_score(q, s[j])
}

/// With no ties, the descending order of a multiset of candidates is unique.
proof fn lemma_sorted_distinct_unique(q: Seq<char>, a: Seq<Candidate>, b: Seq<Candidate>)
    requires
        ranked_descending(q, a),
        ranked_descending(q, b),
        scores_distinct(q, a),
        a.to_multiset() == b.to_multiset(),
    ensures
        a == b,
    decreases a.len(),
{
    broadcast use vstd::seq_lib::group_to_multiset_ensures;

    if a.len() == 0 {
        assert(a =~= b);
    } else {
        assert(a.len() == a.to_multiset().len());
        assert(b.len() == b.to_multiset().len());
        assert(b.len() == a.len());
        assert(b.contains(b[0]));
        assert(a.to_multiset().count(b[0]) > 0);
        assert(a.contains(b[0]));
        let i = choose|i: int| 0 <= i < a.len() && a[i] == b[0];
        assert(b.to_multiset().count(a[0]) > 0);
        assert(b.contains(a[0]));
        let j = choose|j: int| 0 <= j < b.len() && b[j] == a[0];
        assert(cand_score(q, a[0]) >= cand_score(q, a[i]));
        assert(cand_score(q, b[0]) >= cand_score(q, b[j]));
        assert(cand_score(q, a[0]) == cand_score(q, a[i]));
        assert(i == 0);
        let a1 = a.drop_first();
        let b1 = b.drop_first();
        assert(a.remove(0) =~= a1);
        assert(b.remove(0) =~= b1);
        assert(a1.to_multiset() == a.to_multiset().remove(a[0]));
        assert(b1.to_multiset() == b.to_multiset().remove(b[0]));
        assert forall|x: int, y: int|
            #![trigger cand_score(q, a1[x]), cand_score(q, a1[y])]
            0 <= x < y < a1.len() implies cand_score(q, a1[x]) != cand_score(q, a1[y]) by {
            assert(a1[x] == a[x + 1] && a1[y] == a[y + 1]);
        }
        assert forall|x: int, y: int|
            #![trigger cand_score(q, a1[x]), cand_score(q, a1[y])]
            0 <= x <= y < a1.len() implies cand_score(q, a1[x]) >= cand_score(q, a1[y]) by {
            assert(a1[x] == a[x + 1] && a1[y] == a[y + 1]);
        }
        assert forall|x: int, y: int|
            #![trigger cand_score(q, b1[x]), cand_score(q, b1[y])]
            0 <= x <= y < b1.len() implies cand_score(q, b1[x]) >= cand_score(q, b1[y]) by {
            assert(b1[x] == b[x + 1] && b1[y] == b[y + 1]);
        }
        lemma_sorted_distinct_unique(q, a1, b1);
        assert forall|k: int| 0 <= k < a.len() implies a[k] == b[k] by {
            if k > 0 {
                assert(a[k] == a1[k - 1] && b[k] == b1[k - 1]);
            }
        }
        assert(a =~= b);
    }
}

/// An edit pair that nets to no query change: when no two candidates
/// tie under the query, a re-ranking detour under any other query (one more
/// character pushed, then popped) followed by a re-rank under the original
/// query restores the ranked view exactly.
pub proof fn lemma_netting_pair_restores(q: Seq<char>, p: Seq<char>, s: Seq<Candidate>)
    requires
        ranked_descending(q, s),
        scores_distinct(q, s),
    ensures
        rank(q, rank(p, s)) == s,
{
    lemma_rank_permutes(p, s);
    lemma_rank_permutes(q, rank(p, s));
    lemma_rank_sorted(q, rank(p, s));
    lemma_sorted_distinct_unique(q, s, rank(q, rank(p, s)));
}

/// The stable position of `c` in `entries`, computed by a forward scan.
fn find_insert_pos(query: &Vec<char>, c: &Candidate, entries: &Vec<Candidate>) -> (pos: usize)
    ensures
        pos == insert_pos(query@, *c, entries@),
        0 <= pos <= entries@.len(),
{
    let sc = candidate_score(query, c);
    let mut i: usize = 0;
    while i < entries.len()
        invariant
            0 <= i <= entries@.len(),
            sc == cand_score(query@, *c),
            forall|j: int| 0 <= j < i ==> cand_score(query@, #[trigger] entries@[j]) >= sc,
        decreases entries@.len() - i,
    {
        if sc > candidate_score(query, &entries[i]) {
            proof {
                lemma_insert_pos_unique(query@, *c, entries@, i as int);
            }
            return i;
        }
        i = i + 1;
    }
    proof {
        lemma_insert_pos_unique(query@, *c, entries@, i as int);
    }
    i
}

/// The stable descending sort itself: insert each candidate in arrival order.
fn rank_all(query: &Vec<char>, items: Vec<Candidate>) -> (r: Vec<Candidate>)
    ensures
        r@ == rank(query@, items@),
{
    let ghost orig: Seq<Candidate> = items@;
    let mut rest = items;
    let mut out: Vec<Candidate> = Vec::new();
    proof {
        assert(orig.take(0) =~= Seq::<Candidate>::empty());
        assert(rest@ =~= orig.skip(0));
    }
    while rest.len() > 0
        invariant
            rest@.len() <= orig.len(),
            rest@ == orig.skip(orig.len() - rest@.len()),
            out@ == rank(query@, orig.take(orig.len() - rest@.len())),
        decreases rest@.len(),
    {
        let ghost done: int = orig.len() - rest@.len();
        let ghost out_before: Seq<Candidate> = out@;
        let c = rest.remove(0);
        proof {
            assert(c == orig[done]);
            assert(rest@ =~= orig.skip(done + 1));
        }
        let pos = find_insert_pos(query, &c, &out);
        proof {
            lemma_insert_pos_props(query@, c, out@);
        }
        out.insert(pos, c);
        proof {
            assert(out@ == insert_ranked(query@, c, out_before));
            assert(orig.take(done + 1).drop_last() =~= orig.take(done));
            assert(orig.take(done + 1).last() == orig[done]);
        }
    }
    proof {
        assert(orig.take(orig.len() as int) =~= orig);
    }
    out
}

/// The candidate set together with the current query, kept in ranked order:
/// descending similarity to the query, ties in arrival order.
pub struct RankedList {
    query: Vec<char>,
    entries: Vec<Candidate>,
}

impl RankedList {
    /// The query, one character per keystroke.
    pub closed spec fn query_view(&self) -> Seq<char> {
        self.query@
    }

    /// The candidates, in ranked order.
    pub closed spec fn entries_view(&self) -> Seq<Candidate> {
        self.entries@
    }

    /// The entries are always in descending order of similarity to the query.
    pub open spec fn well_formed(&self) -> bool {
        ranked_descending(self.query_view(), self.entries_view())
    }

    /// An empty list with an empty query.
    pub fn new() -> (r: RankedList)
        ensures
            r.query_view() == Seq::<char>::empty(),
            r.entries_view() == Seq::<Candidate>::empty(),
            r.well_formed(),
    {
        RankedList { query: Vec::new(), entries: Vec::new() }
    }

    /// The current query text.
    pub fn query(&self) -> (r: &Vec<char>)
        ensures
            r@ == self.query_view(),
    {
        &self.query
    }

    /// The ranked candidates, most similar first; reflects the latest sort.
    pub fn ranked_view(&self) -> (r: &Vec<Candidate>)
        ensures
            r@ == self.entries_view(),
    {
        &self.entries
    }

    /// How many candidates the list holds.
    pub fn len(&self) -> (n: usize)
        ensures
            n == self.entries_view().len(),
    {
        self.entries.len()
    }

    /// Replace the candidate set wholesale and re-rank it against the current
    /// query. The result is a permutation of exactly the new set.
    pub fn set_candidates(&mut self, cs: Vec<Candidate>)
        ensures
            final(self).query_view() == old(self).query_view(),
            final(self).entries_view() == rank(old(self).query_view(), cs@),
            final(self).entries_view().to_multiset() == cs@.to_multiset(),
            final(self).entries_view().len() == cs@.len(),
            final(self).well_formed(),
    {
        proof {
            lemma_rank_permutes(self.query@, cs@);
            lemma_rank_sorted(self.query@, cs@);
        }
        let sorted = rank_all(&self.query, cs);
        self.entries = sorted;
    }

    /// Append one character to the query and re-rank.
    pub fn push_char(&mut self, ch: char)
        ensures
            final(self).query_view() == old(self).query_view().push(ch),
            final(self).entries_view() == rank(final(self).query_view(), old(self).entries_view()),
            final(self).entries_view().to_multiset() == old(self).entries_view().to_multiset(),
            final(self).entries_view().len() == old(self).entries_view().len(),
            final(self).well_formed(),
    {
        self.query.push(ch);
        self.resort();
    }

    /// Remove the last character of the query, if any, and re-rank. On an
    /// empty query this is a no-op, not an error: nothing changes.
    /// Returns whether the query changed.
    pub fn pop_char(&mut self) -> (changed: bool)
        ensures
            old(self).query_view().len() == 0 ==> !changed && *final(self) == *old(self),
            old(self).query_view().len() > 0 ==> changed
                && final(self).query_view() == old(self).query_view().drop_last()
                && final(self).entries_view() == rank(final(self).query_view(), old(self).entries_view())
                && final(self).entries_view().to_multiset() == old(self).entries_view().to_multiset()
                && final(self).well_formed(),
            final(self).entries_view().len() == old(self).entries_view().len(),
    {
        if self.query.len() == 0 {
            return false;
        }
        self.query.pop();
        self.resort();
        true
    }

    /// Re-rank the entries against the current query.
    fn resort(&mut self)
        ensures
            final(self).query_view() == old(self).query_view(),
            final(self).entries_view() == rank(old(self).query_view(), old(self).entries_view()),
            final(self).entries_view().to_multiset() == old(self).entries_view().to_multiset(),
            final(self).entries_view().len() == old(self).entries_view().len(),
            final(self).well_formed(),
    {
        proof {
            lemma_rank_permutes(self.query@, self.entries@);
            lemma_rank_sorted(self.query@, self.entries@);
        }
        let mut tmp: Vec<Candidate> = Vec::new();
        core::mem::swap(&mut tmp, &mut self.entries);
        let sorted = rank_all(&self.query, tmp);
        self.entries = sorted;
    }
}

} // verus!
