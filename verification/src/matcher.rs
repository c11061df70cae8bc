//! Ranks candidate display names against a typed fragment.

use vstd::prelude::*;
use vstd::relations::sorted_by;
use vstd::relations::total_ordering;
use vstd::seq_lib::lemma_sorted_unique;
use crate::error::RelayError;
use crate::text::lemma_lex_le_antisymmetric;
use crate::text::lemma_lex_le_reflexive;
use crate::text::lemma_lex_le_total;
use crate::text::lemma_lex_le_transitive;
use crate::text::lex_le;
use crate::text::str_le;
use crate::text::texts_of;

verus! {

/// The most suggestions a ranking returns.
pub const SUGGESTION_LIMIT: usize = 25;

/// The penalty of a candidate that does not match the query at all.
pub const NO_MATCH_PENALTY: i128 = 100;

/// The longest query, in characters, that is handed to the fuzzy matcher.
pub const QUERY_LIMIT: usize = 256;

/// The score `sublime_fuzzy::best_match` gives to `target` for `query`, if it
/// finds the whole query in the target.
pub uninterp spec fn best_match_score(query: Seq<char>, target: Seq<char>) -> Option<int>;

/// The closeness of `target` to `query`: higher is closer, `None` is no match.
/// An empty query or an empty target never matches.
pub open spec fn match_score(query: Seq<char>, target: Seq<char>) -> Option<int> {
    if query.len() == 0 || target.len() == 0 {
        None
    } else {
        best_match_score(query, target)
    }
}

/// The penalty that a score turns into: lower is better.
pub open spec fn penalty_of(score: Option<int>) -> int {
    match score {
        Some(s) => NO_MATCH_PENALTY - s,
        None => NO_MATCH_PENALTY as int,
    }
}

/// A candidate with its penalty, as contracts see it.
pub type Entry = (int, Seq<char>);

/// A candidate name together with its penalty.
#[derive(Clone, Debug, PartialEq, Eq)]
pub struct Scored {
    pub penalty: i128,
    pub name: String,
}

impl View for Scored {
    type V = Entry;

    open spec fn view(&self) -> Entry {
        (self.penalty as int, self.name@)
    }
}

/// Entries are ordered by penalty, and by name among equal penalties.
pub open spec fn entry_le(a: Entry, b: Entry) -> bool {
    a.0 < b.0 || (a.0 == b.0 && lex_le(a.1, b.1))
}

/// The order of entries as a relation.
pub open spec fn entry_order() -> spec_fn(Entry, Entry) -> bool {
    |a: Entry, b: Entry| entry_le(a, b)
}

/// The entries of a vector of scored candidates.
pub open spec fn entries_of(v: Seq<Scored>) -> Seq<Entry> {
    v.map_values(|e: Scored| e@)
}

/// Each candidate paired with its penalty for `query`.
pub open spec fn scored(query: Seq<char>, candidates: Seq<Seq<char>>) -> Seq<Entry> {
    candidates.map_values(|c: Seq<char>| (penalty_of(match_score(query, c)), c))
}

/// The names of the best entries: all entries in ascending order, cut to the
/// suggestion limit.
pub open spec fn ranked(entries: Seq<Entry>) -> Seq<Seq<char>> {
    let ordered = entries.sort_by(entry_order());
    let kept = if entries.len() <= SUGGESTION_LIMIT { entries.len() as int } else { SUGGESTION_LIMIT as int };
    ordered.take(kept).map_values(|e: Entry| e.1)
}

/// What ranking candidates against a query gives: nothing to rank without
/// candidates, else the names of the best entries.
pub open spec fn ranking(
    query: Seq<char>,
    candidates: Seq<Seq<char>>,
) -> Result<Seq<Seq<char>>, RelayError> {
    if candidates.len() == 0 {
        Err(RelayError::NoCandidates)
    } else {
        Ok(ranked(scored(query, candidates)))
    }
}

/// A ranking as contracts see it.
pub open spec fn ranking_view(
    r: Result<Vec<String>, RelayError>,
) -> Result<Seq<Seq<char>>, RelayError> {
    match r {
        Ok(v) => Ok(texts_of(v@)),
        Err(e) => Err(e),
    }
}

/// The order of entries is total: reflexive, antisymmetric, transitive and connected.
pub proof fn lemma_entry_order_total()
    ensures
        total_ordering(entry_order()),
{
    let r = entry_order();
    assert forall|a: Entry| #[trigger] r(a, a) by {
        lemma_lex_le_reflexive(a.1);
    }
    assert forall|a: Entry, b: Entry| #[trigger] r(a, b) && #[trigger] r(b, a) implies a == b by {
        lemma_lex_le_antisymmetric(a.1, b.1);
    }
    assert forall|a: Entry, b: Entry, c: Entry| #[trigger] r(a, b) && #[trigger] r(b, c) implies r(a, c) by {
        if a.0 == b.0 && b.0 == c.0 {
            lemma_lex_le_transitive(a.1, b.1, c.1);
        }
    }
    assert forall|a: Entry, b: Entry| #[trigger] r(a, b) || #[trigger] r(b, a) by {
        lemma_lex_le_total(a.1, b.1);
    }
}

/// A ranking holds at most twenty-five names, all names where there are no
/// more than that, and the names as the order of entries puts them: the
/// entries in ascending order are a rearrangement of the entries, and the
/// ranking is the beginning of their names.
pub proof fn lemma_rank_bounds(entries: Seq<Entry>)
    ensures
        ranked(entries).len() <= SUGGESTION_LIMIT,
        ranked(entries).len() == if entries.len() <= SUGGESTION_LIMIT {
            entries.len()
        } else {
            SUGGESTION_LIMIT as nat
        },
        entries.sort_by(entry_order()).to_multiset() == entries.to_multiset(),
        entries.sort_by(entry_order()).len() == entries.len(),
        sorted_by(entries.sort_by(entry_order()), entry_order()),
        forall|i: int| 0 <= i < ranked(entries).len() ==> #[trigger] ranked(entries)[i] == entries.sort_by(entry_order())[i].1,
{
    lemma_entry_order_total();
    entries.lemma_sort_by_ensures(entry_order());
    entries.to_multiset_ensures();
    entries.sort_by(entry_order()).to_multiset_ensures();
}

/// With an empty query no candidate matches, so the ranking goes by name
/// alone: it holds the candidates' names in ascending order, up to
/// twenty-five of them, and is not empty where there are candidates.
pub proof fn lemma_empty_query_ranks_by_name(candidates: Seq<Seq<char>>)
    ensures
        ({
            let out = ranked(scored(Seq::empty(), candidates));
            &&& out.len() == if candidates.len() <= SUGGESTION_LIMIT {
                candidates.len()
            } else {
                SUGGESTION_LIMIT as nat
            }
            &&& candidates.len() > 0 ==> out.len() > 0
            &&& forall|i: int, j: int| 0 <= i < j < out.len() ==> lex_le(#[trigger] out[i], #[trigger] out[j])
            &&& forall|i: int| 0 <= i < out.len() ==> candidates.contains(#[trigger] out[i])
        }),
{
    let entries = scored(Seq::empty(), candidates);
    let ordered = entries.sort_by(entry_order());
    let out = ranked(entries);
    lemma_rank_bounds(entries);
    lemma_entry_order_total();
    entries.lemma_sort_by_ensures(entry_order());
    assert forall|k: int| 0 <= k < ordered.len() implies (#[trigger] ordered[k]).0 == NO_MATCH_PENALTY
        && candidates.contains(ordered[k].1) by {
        assert(ordered.contains(ordered[k]));
        assert(entries.contains(ordered[k]));
        let i = choose|i: int| 0 <= i < entries.len() && entries[i] == ordered[k];
        assert(entries[i] == (penalty_of(match_score(Seq::empty(), candidates[i])), candidates[i]));
    }
    assert forall|i: int, j: int| 0 <= i < j < out.len() implies lex_le(#[trigger] out[i], #[trigger] out[j]) by {
        assert(entry_order()(ordered[i], ordered[j]));
        assert(out[i] == ordered[i].1 && out[j] == ordered[j].1);
    }
    assert forall|i: int| 0 <= i < out.len() implies candidates.contains(#[trigger] out[i]) by {
        assert(out[i] == ordered[i].1);
    }
}

/// A score as contracts see it.
pub open spec fn score_int(score: Option<isize>) -> Option<int> {
    match score {
        Some(s) => Some(s as int),
        None => None,
    }
}

/// Calls `sublime_fuzzy::best_match` and takes the score of the match it finds.
/// The result is the crate's score for this query and target. The crate
/// documents that an empty query or an empty target gives no match. The query
/// is held to `QUERY_LIMIT` characters because the crate reserves a table of
/// query-length-squared entries before it searches.
#[verifier::external_body]
fn fuzzy_score(query: &str, target: &str) -> (r: Option<isize>)
    requires
        query@.len() <= QUERY_LIMIT,
    ensures
        score_int(r) == best_match_score(query@, target@),
        query@.len() == 0 || target@.len() == 0 ==> r is None,
{
    match sublime_fuzzy::best_match(query, target) {
        Some(m) => Some(m.score()),
        None => None,
    }
}

/// Turns a closeness score into a penalty, so that lower is better; a
/// candidate without a match gets the fixed penalty.
pub fn penalty(score: Option<isize>) -> (p: i128)
    ensures
        p == penalty_of(score_int(score)),
{
    match score {
        Some(s) => NO_MATCH_PENALTY - (s as i128),
        None => NO_MATCH_PENALTY,
    }
}

/// Whether a query is short enough to be ranked against.
pub fn query_fits(query: &str) -> (r: bool)
    ensures
        r == (query@.len() <= QUERY_LIMIT),
{
    query.unicode_len() <= QUERY_LIMIT
}

/// Whether `a` is ordered before or together with `b`.
pub fn entry_before(a: &Scored, b: &Scored) -> (r: bool)
    ensures
        r == entry_le(a@, b@),
{
    a.penalty < b.penalty || (a.penalty == b.penalty && str_le(a.name.as_str(), b.name.as_str()))
}

/// Puts `e` into an ordered vector at its place.
fn insert_ordered(ordered: &mut Vec<Scored>, e: Scored)
    requires
        sorted_by(entries_of(old(ordered)@), entry_order()),
    ensures
        sorted_by(entries_of(final(ordered)@), entry_order()),
        entries_of(final(ordered)@).to_multiset() == entries_of(old(ordered)@).to_multiset().insert(e@),
{
    let n: usize = ordered.len();
    let mut i: usize = 0;
    while i < n && entry_before(&ordered[i], &e)
        invariant
            n == ordered@.len(),
            i <= n,
            forall|k: int| 0 <= k < i ==> entry_le(#[trigger] ordered@[k]@, e@),
        decreases n - i,
    {
        i += 1;
    }
    let ghost before = entries_of(ordered@);
    let ghost ev = e@;
    ordered.insert(i, e);
    proof {
        let after = entries_of(ordered@);
        let r = entry_order();
        lemma_entry_order_total();
        assert(after =~= before.insert(i as int, ev));
        assert forall|p: int, q: int| 0 <= p < q < after.len() implies #[trigger] r(after[p], after[q]) by {
            if q < i {
                assert(r(before[p], before[q]));
            } else if q == i {
                assert(after[p] == before[p]);
            } else if p == i {
                assert(after[q] == before[q - 1]);
                assert(!r(before[i as int], ev));
                assert(r(ev, before[i as int]) || r(before[i as int], ev));
                if q - 1 > i {
                    assert(r(before[i as int], before[q - 1]));
                }
                assert(r(ev, before[q - 1]));
            } else if p < i {
                assert(after[p] == before[p]);
                assert(after[q] == before[q - 1]);
                assert(r(before[p], before[q - 1]));
            } else {
                assert(after[p] == before[p - 1]);
                assert(after[q] == before[q - 1]);
                assert(r(before[p - 1], before[q - 1]));
            }
        }
        after.to_multiset_ensures();
        assert(after.remove(i as int) =~= before);
        assert(after[i as int] == ev);
        assert(after.contains(ev));
        assert(after.to_multiset() =~= before.to_multiset().insert(ev));
    }
}

/// Orders scored candidates by penalty and then by name, keeps the best
/// twenty-five, and returns their names, best first.
pub fn rank_scored(entries: &Vec<Scored>) -> (out: Vec<String>)
    ensures
        texts_of(out@) == ranked(entries_of(entries@)),
        out@.len() <= SUGGESTION_LIMIT,
{
    let n: usize = entries.len();
    let mut ordered: Vec<Scored> = Vec::new();
    let mut i: usize = 0;
    assert(entries_of(entries@).take(0) =~= entries_of(ordered@));
    while i < n
        invariant
            n == entries@.len(),
            i <= n,
            sorted_by(entries_of(ordered@), entry_order()),
            entries_of(ordered@).to_multiset() == entries_of(entries@).take(i as int).to_multiset(),
        decreases n - i,
    {
        let e = Scored { penalty: entries[i].penalty, name: entries[i].name.clone() };
        proof {
            let all = entries_of(entries@);
            all.take(i as int).to_multiset_ensures();
            assert(all.take(i + 1) =~= all.take(i as int).push(e@));
        }
        insert_ordered(&mut ordered, e);
        i += 1;
    }
    proof {
        let all = entries_of(entries@);
        assert(all.take(n as int) =~= all);
        lemma_entry_order_total();
        all.lemma_sort_by_ensures(entry_order());
        lemma_sorted_unique(entries_of(ordered@), all.sort_by(entry_order()), entry_order());
        entries_of(ordered@).to_multiset_ensures();
        all.to_multiset_ensures();
    }
    let kept: usize = if n <= SUGGESTION_LIMIT { n } else { SUGGESTION_LIMIT };
    let mut out: Vec<String> = Vec::new();
    let mut j: usize = 0;
    while j < kept
        invariant
            kept <= ordered@.len(),
            j <= kept,
            texts_of(out@) =~= entries_of(ordered@).take(j as int).map_values(|e: Entry| e.1),
        decreases kept - j,
    {
        let ghost prev = out@;
        out.push(ordered[j].name.clone());
        proof {
            let o = entries_of(ordered@);
            assert(o.take(j + 1) =~= o.take(j as int).push(o[j as int]));
            assert(texts_of(out@) =~= texts_of(prev).push(o[j as int].1));
        }
        j += 1;
    }
    out
}

/// Ranks `candidates` against `query`: every candidate is scored, candidates
/// that do not match stay in with the fixed penalty, and the best twenty-five
/// names come back, best first. Without candidates there is nothing to rank.
pub fn rank(query: &str, candidates: &Vec<String>) -> (r: Result<Vec<String>, RelayError>)
    requires
        query@.len() <= QUERY_LIMIT,
    ensures
        ranking_view(r) == ranking(query@, texts_of(candidates@)),
        candidates@.len() == 0 <==> r == Err::<Vec<String>, RelayError>(RelayError::NoCandidates),
        r is Ok ==> 0 < r->Ok_0@.len() <= SUGGESTION_LIMIT,
        r is Ok && candidates@.len() <= SUGGESTION_LIMIT ==> r->Ok_0@.len() == candidates@.len(),
{
    let n: usize = candidates.len();
    if n == 0 {
        return Err(RelayError::NoCandidates);
    }
    let mut entries: Vec<Scored> = Vec::new();
    let mut i: usize = 0;
    while i < n
        invariant
            n == candidates@.len(),
            i <= n,
            query@.len() <= QUERY_LIMIT,
            entries_of(entries@) =~= scored(query@, texts_of(candidates@)).take(i as int),
        decreases n - i,
    {
        let name = candidates[i].clone();
        let p = penalty(fuzzy_score(query, name.as_str()));
        let ghost prev = entries@;
        entries.push(Scored { penalty: p, name });
        proof {
            let all = scored(query@, texts_of(candidates@));
            assert(all.take(i + 1) =~= all.take(i as int).push(all[i as int]));
            assert(entries_of(entries@) =~= entries_of(prev).push(all[i as int]));
        }
        i += 1;
    }
    proof {
        let all = scored(query@, texts_of(candidates@));
        assert(all.take(n as int) =~= all);
        lemma_rank_bounds(all);
    }
    Ok(rank_scored(&entries))
}

/// Ranks `candidates` against `query` where the query is short enough to
/// be ranked against, and says so where it is not.
pub fn try_rank(query: &str, candidates: &Vec<String>) -> (r: Option<Result<Vec<String>, RelayError>>)
    ensures
        r is None <==> query@.len() > QUERY_LIMIT,
        r is Some ==> ranking_view(r->Some_0) == ranking(query@, texts_of(candidates@)),
        r matches Some(Ok(names)) ==> 0 < names@.len() <= SUGGESTION_LIMIT,
{
    if query_fits(query) {
        Some(rank(query, candidates))
    } else {
        None
    }
}

} // verus!
