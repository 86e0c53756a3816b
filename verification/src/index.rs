//! Local metadata snapshots and ranked filename/path search. File contents are never read.
use vstd::prelude::*;
use vstd::seq_lib::seq_to_set_is_finite;
use vstd::set_lib::{lemma_int_range, lemma_len_subset, set_int_range};
use vstd::utf8::encode_utf8;

use crate::text::{
    ascii_upper, chars_of, contains, contains_chars, embeds, is_ascii_text, is_prefix, is_space,
    lemma_lower_ignores_ascii_case, lemma_trim_padded_upper, lower, occurs_at, same_chars, split_words,
    starts_with, subsequence, texts, to_lowercase, trim, trimmed, utf8_longer_than, words,
};

verus! {

/// One indexed file or folder.
#[derive(Debug)]
pub struct Entry {
    pub path: String,
    pub name: String,
    pub directory: bool,
    pub modified: u64,
    /// The lowercased path, which path-token search looks in.
    pub searchable: Vec<char>,
}

/// An indexed set of entries, the folders it was made from and the count of
/// entries that could not be read.
pub struct Snapshot {
    pub entries: Vec<Entry>,
    pub roots: Vec<String>,
    pub skipped: usize,
}

impl Entry {
    /// Same path, name, kind, modification time and searchable text.
    pub open spec fn same_as(self, other: Entry) -> bool {
        &&& self.path == other.path
        &&& self.name == other.name
        &&& self.directory == other.directory
        &&& self.modified == other.modified
        &&& self.searchable@ == other.searchable@
    }

    /// An entry whose searchable text is prepared from its path.
    pub fn new(path: String, name: String, directory: bool, modified: u64) -> (r: Entry)
        ensures
            r.path == path,
            r.name == name,
            r.directory == directory,
            r.modified == modified,
            r.searchable@ == lower(path@),
    {
        let mut entry = Entry { path, name, directory, modified, searchable: Vec::new() };
        entry.prepare();
        entry
    }

    /// Recompute the searchable text from the path.
    pub fn prepare(&mut self)
        ensures
            final(self).path == old(self).path,
            final(self).name == old(self).name,
            final(self).directory == old(self).directory,
            final(self).modified == old(self).modified,
            final(self).searchable@ == lower(old(self).path@),
    {
        let chars = chars_of(self.path.as_str());
        self.searchable = to_lowercase(chars.as_slice());
    }

    /// A copy of the entry.
    pub fn duplicate(&self) -> (r: Entry)
        ensures
            r.same_as(*self),
    {
        let searchable = self.searchable.clone();
        assert(searchable@ =~= self.searchable@);
        Entry {
            path: self.path.clone(),
            name: self.name.clone(),
            directory: self.directory,
            modified: self.modified,
            searchable,
        }
    }
}

/// The query as it is matched: trimmed, then lowercased.
pub open spec fn query_text(query: Seq<char>) -> Seq<char> {
    lower(trim(query))
}

/// Rank of an entry for a query, best first: 0 for an empty query or an exact
/// name, 1 for a name prefix, 2 for a name substring, 3 when every query word
/// occurs in the lowercased path, 4 for a fuzzy (in-order) name match of a query
/// of at least two UTF-8 bytes; `None` when the entry does not match.
pub open spec fn match_score(
    name: Seq<char>,
    searchable: Seq<char>,
    query: Seq<char>,
    query_words: Seq<Seq<char>>,
) -> Option<u8> {
    if query.len() == 0 || name == query {
        Some(0u8)
    } else if is_prefix(query, name) {
        Some(1u8)
    } else if contains(name, query) {
        Some(2u8)
    } else if forall|k: int|
        0 <= k < query_words.len() ==> contains(searchable, #[trigger] query_words[k]) {
        Some(3u8)
    } else if encode_utf8(query).len() >= 2 && embeds(name, query) {
        Some(4u8)
    } else {
        None
    }
}

/// What each score means, in terms of the name, the searchable path text and the
/// query: 0 for an empty query or the exact name, 1 for a proper name prefix, 2
/// for a name that contains the query elsewhere, 3 for a name without the query
/// whose path holds every query word, 4 for an in-order fuzzy name match of a
/// query of at least two UTF-8 bytes. In particular a score of 2 or better is
/// given exactly to names that contain the query.
pub proof fn lemma_score_meaning(
    name: Seq<char>,
    searchable: Seq<char>,
    query: Seq<char>,
    query_words: Seq<Seq<char>>,
)
    ensures
        ({
            let r = match_score(name, searchable, query, query_words);
            &&& (r == Some(0u8)) <==> (query.len() == 0 || name == query)
            &&& (r == Some(1u8)) <==> (query.len() > 0 && name != query && is_prefix(query, name))
            &&& (r == Some(2u8)) <==> (query.len() > 0 && contains(name, query) && !is_prefix(query, name))
            &&& (r == Some(3u8)) <==> (query.len() > 0 && !contains(name, query) && forall|k: int|
                0 <= k < query_words.len() ==> contains(searchable, #[trigger] query_words[k]))
            &&& (r == Some(4u8)) <==> (query.len() > 0 && !contains(name, query) && !(forall|k: int|
                0 <= k < query_words.len() ==> contains(searchable, #[trigger] query_words[k]))
                && encode_utf8(query).len() >= 2 && embeds(name, query))
            &&& (r is Some && r->0 <= 2) <==> contains(name, query)
            &&& r is Some ==> r->0 <= 4
        }),
{
    if is_prefix(query, name) {
        assert(name.subrange(0, query.len() as int) =~= name.take(query.len() as int));
        assert(occurs_at(name, query, 0));
    }
    if query.len() == 0 {
        assert(name.subrange(0, 0) =~= query);
        assert(occurs_at(name, query, 0));
    }
    if name == query {
        assert(name.subrange(0, query.len() as int) =~= query);
        assert(occurs_at(name, query, 0));
        assert(name.take(query.len() as int) =~= query);
    }
}

/// An entry whose lowercased name contains the query ranks ahead of every
/// matching entry whose name does not (one matched only through its path or
/// fuzzily), whatever their modification times.
pub proof fn lemma_name_matches_rank_first(entries: Seq<Entry>, query: Seq<char>, a: int, b: int)
    requires
        0 <= a < entries.len(),
        0 <= b < entries.len(),
        contains(lower(entries[a].name@), query_text(query)),
        !contains(lower(entries[b].name@), query_text(query)),
        entry_score(entries[b], query) is Some,
    ensures
        ranks_before(entry_scores(entries, query), modified_times(entries), a, b),
{
    let q = query_text(query);
    lemma_score_meaning(lower(entries[a].name@), entries[a].searchable@, q, words(q));
    lemma_score_meaning(lower(entries[b].name@), entries[b].searchable@, q, words(q));
}

/// In a ranked list, such an entry comes before such another one.
pub proof fn lemma_name_matches_listed_first(
    entries: Seq<Entry>,
    query: Seq<char>,
    limit: nat,
    r: Seq<usize>,
    i: int,
    j: int,
)
    requires
        is_top(entry_scores(entries, query), modified_times(entries), limit, r),
        0 <= i < r.len(),
        0 <= j < r.len(),
        contains(lower(entries[r[i] as int].name@), query_text(query)),
        !contains(lower(entries[r[j] as int].name@), query_text(query)),
    ensures
        i < j,
{
    let scores = entry_scores(entries, query);
    let modified = modified_times(entries);
    assert(r[j] < scores.len() && scores[r[j] as int] is Some);
    assert(r[i] < scores.len());
    lemma_name_matches_rank_first(entries, query, r[i] as int, r[j] as int);
    if j < i {
        assert(ranks_before(scores, modified, r[j] as int, r[i] as int));
    }
    if i == j {
        assert(r[i] == r[j]);
    }
}

/// The score of `entry` for the raw query text `query`.
pub open spec fn entry_score(entry: Entry, query: Seq<char>) -> Option<u8> {
    match_score(
        lower(entry.name@),
        entry.searchable@,
        query_text(query),
        words(query_text(query)),
    )
}

pub open spec fn entry_scores(entries: Seq<Entry>, query: Seq<char>) -> Seq<Option<u8>> {
    entries.map_values(|e: Entry| entry_score(e, query))
}

pub open spec fn modified_times(entries: Seq<Entry>) -> Seq<u64> {
    entries.map_values(|e: Entry| e.modified)
}

/// Entry `a` ranks ahead of entry `b`: a better score, then a more recent
/// modification, then an earlier position.
pub open spec fn ranks_before(scores: Seq<Option<u8>>, modified: Seq<u64>, a: int, b: int) -> bool {
    let sa = scores[a]->0;
    let sb = scores[b]->0;
    ||| sa < sb
    ||| (sa == sb && modified[a] > modified[b])
    ||| (sa == sb && modified[a] == modified[b] && a < b)
}

/// `r` lists, best first, the matching positions that rank ahead of all others,
/// as many as `limit` allows.
pub open spec fn is_top(scores: Seq<Option<u8>>, modified: Seq<u64>, limit: nat, r: Seq<usize>) -> bool {
    &&& r.len() <= limit
    &&& forall|k: int|
        0 <= k < r.len() ==> (#[trigger] r[k]) < scores.len() && scores[r[k] as int] is Some
    &&& forall|a: int, b: int|
        0 <= a < b < r.len() ==> ranks_before(scores, modified, r[a] as int, r[b] as int)
    &&& forall|j: int|
        0 <= j < scores.len() && (#[trigger] scores[j]) is Some && !r.contains(j as usize) ==> {
            &&& r.len() == limit
            &&& forall|k: int|
                0 <= k < r.len() ==> ranks_before(scores, modified, #[trigger] r[k] as int, j)
        }
}

proof fn lemma_ranks_transitive(scores: Seq<Option<u8>>, modified: Seq<u64>, a: int, b: int, c: int)
    requires
        ranks_before(scores, modified, a, b),
        ranks_before(scores, modified, b, c),
    ensures
        ranks_before(scores, modified, a, c),
{
}

/// The ranking is fully determined: two lists that both rank the best `limit`
/// matching positions of the same scores and modification times are equal.
pub proof fn lemma_top_unique(
    scores: Seq<Option<u8>>,
    modified: Seq<u64>,
    limit: nat,
    r1: Seq<usize>,
    r2: Seq<usize>,
)
    requires
        is_top(scores, modified, limit, r1),
        is_top(scores, modified, limit, r2),
    ensures
        r1 == r2,
{
    assert forall|k: int| 0 <= k < r1.len() && 0 <= k < r2.len() implies r1[k] == r2[k] by {
        lemma_top_agree_at(scores, modified, limit, r1, r2, k);
    }
    lemma_top_prefix_length(scores, modified, limit, r1, r2);
    lemma_top_prefix_length(scores, modified, limit, r2, r1);
    assert(r1 =~= r2);
}

/// Two ranked lists agree at every position that both have.
proof fn lemma_top_agree_at(
    scores: Seq<Option<u8>>,
    modified: Seq<u64>,
    limit: nat,
    r1: Seq<usize>,
    r2: Seq<usize>,
    k: int,
)
    requires
        is_top(scores, modified, limit, r1),
        is_top(scores, modified, limit, r2),
        0 <= k < r1.len(),
        0 <= k < r2.len(),
    ensures
        r1[k] == r2[k],
    decreases k,
{
    assert forall|j: int| 0 <= j < k implies r1[j] == r2[j] by {
        lemma_top_agree_at(scores, modified, limit, r1, r2, j);
    }
    let x = r1[k];
    let y = r2[k];
    if x != y {
        if ranks_before(scores, modified, x as int, y as int) {
            lemma_top_first_difference(scores, modified, limit, r1, r2, k);
        } else {
            assert(ranks_before(scores, modified, y as int, x as int));
            assert forall|j: int| 0 <= j < k implies r2[j] == r1[j] by {}
            lemma_top_first_difference(scores, modified, limit, r2, r1, k);
        }
    }
}

/// Where two ranked lists first differ, the first one's entry does not rank
/// ahead of the second one's.
proof fn lemma_top_first_difference(
    scores: Seq<Option<u8>>,
    modified: Seq<u64>,
    limit: nat,
    r1: Seq<usize>,
    r2: Seq<usize>,
    k: int,
)
    requires
        is_top(scores, modified, limit, r1),
        is_top(scores, modified, limit, r2),
        0 <= k < r1.len(),
        0 <= k < r2.len(),
        forall|j: int| 0 <= j < k ==> r1[j] == r2[j],
        r1[k] != r2[k],
    ensures
        !ranks_before(scores, modified, r1[k] as int, r2[k] as int),
{
    let x = r1[k];
    let y = r2[k];
    assert(r1[k] < scores.len() && scores[x as int] is Some);
    if !ranks_before(scores, modified, x as int, y as int) {
    } else if r2.contains(x) {
        let t = choose|t: int| 0 <= t < r2.len() && r2[t] == x;
        if t < k {
            assert(r1[t] == x);
            assert(ranks_before(scores, modified, r1[t] as int, r1[k] as int));
        } else {
            assert(t > k);
            assert(ranks_before(scores, modified, r2[k] as int, r2[t] as int));
        }
    } else {
        assert(scores[x as int] is Some);
        assert(ranks_before(scores, modified, r2[k] as int, x as int));
    }
}

/// A ranked list that agrees with another on their common length is at least as long.
proof fn lemma_top_prefix_length(
    scores: Seq<Option<u8>>,
    modified: Seq<u64>,
    limit: nat,
    r1: Seq<usize>,
    r2: Seq<usize>,
)
    requires
        is_top(scores, modified, limit, r1),
        is_top(scores, modified, limit, r2),
        forall|k: int| 0 <= k < r1.len() && k < r2.len() ==> r1[k] == r2[k],
    ensures
        r1.len() >= r2.len(),
{
    if r1.len() >= r2.len() {
        return;
    }
    let n = r1.len() as int;
    let z = r2[n];
    assert(z < scores.len() && scores[z as int] is Some);
    if r1.contains(z) {
        let t = choose|t: int| 0 <= t < r1.len() && r1[t] == z;
        assert(r2[t] == z);
        assert(ranks_before(scores, modified, r2[t] as int, r2[n] as int));
    } else {
        assert(scores[z as int] is Some);
    }
}

/// A query that is empty or all whitespace matches every entry equally, so the
/// most recently modified entries come first, as many as the limit allows.
pub proof fn lemma_empty_query_lists_recent(
    entries: Seq<Entry>,
    query: Seq<char>,
    limit: nat,
    r: Seq<usize>,
)
    requires
        entries.len() <= usize::MAX,
        trim(query).len() == 0,
        is_top(entry_scores(entries, query), modified_times(entries), limit, r),
    ensures
        r.len() == if entries.len() < limit { entries.len() } else { limit },
        forall|a: int, b: int|
            0 <= a < b < r.len() ==> entries[r[a] as int].modified >= entries[r[b] as int].modified,
{
    let scores = entry_scores(entries, query);
    let modified = modified_times(entries);
    assert(is_ascii_text(trim(query)));
    assert(query_text(query).len() == 0);
    assert forall|j: int| 0 <= j < entries.len() implies #[trigger] scores[j] == Some(0u8) by {}
    assert forall|a: int, b: int|
        0 <= a < b < r.len() implies entries[r[a] as int].modified >= entries[r[b] as int].modified by {
        assert(ranks_before(scores, modified, r[a] as int, r[b] as int));
        assert(r[a] < scores.len() && r[b] < scores.len()) by {
            assert(r[a] == r[a]);
            assert(r[b] == r[b]);
        }
    }
    lemma_top_distinct(scores, modified, limit, r);
    if r.len() < limit {
        assert forall|j: int| 0 <= j < entries.len() implies #[trigger] r.contains(j as usize) by {
            assert(scores[j] is Some);
        }
    }
    lemma_distinct_positions_len(r, entries.len());
}

/// The positions of a ranked list are pairwise distinct.
proof fn lemma_top_distinct(scores: Seq<Option<u8>>, modified: Seq<u64>, limit: nat, r: Seq<usize>)
    requires
        is_top(scores, modified, limit, r),
    ensures
        forall|a: int, b: int| 0 <= a < b < r.len() ==> r[a] != r[b],
        forall|k: int| 0 <= k < r.len() ==> r[k] < scores.len(),
{
    assert forall|a: int, b: int| 0 <= a < b < r.len() implies r[a] != r[b] by {
        assert(ranks_before(scores, modified, r[a] as int, r[b] as int));
    }
    assert forall|k: int| 0 <= k < r.len() implies r[k] < scores.len() by {
        assert(r[k] == r[k]);
    }
}

/// Distinct positions below `n` number at most `n`, and exactly `n` when each
/// position below `n` occurs.
proof fn lemma_distinct_positions_len(r: Seq<usize>, n: nat)
    requires
        forall|a: int, b: int| 0 <= a < b < r.len() ==> r[a] != r[b],
        forall|k: int| 0 <= k < r.len() ==> r[k] < n,
    ensures
        r.len() <= n,
        n <= usize::MAX + 1 && (forall|j: int| 0 <= j < n ==> #[trigger] r.contains(j as usize)) ==> r.len() == n,
{
    let ri = r.map_values(|x: usize| x as int);
    assert(ri.no_duplicates()) by {
        assert forall|a: int, b: int| 0 <= a < ri.len() && 0 <= b < ri.len() && a != b implies ri[a]
            != ri[b] by {
            if a < b {
                assert(r[a] != r[b]);
            } else {
                assert(r[b] != r[a]);
            }
        }
    }
    ri.unique_seq_to_set();
    let range = set_int_range(0, n as int);
    lemma_int_range(0, n as int);
    assert(ri.to_set().subset_of(range)) by {
        assert forall|x: int| ri.to_set().contains(x) implies range.contains(x) by {
            let k = choose|k: int| 0 <= k < ri.len() && ri[k] == x;
            assert(r[k] < n);
        }
    }
    lemma_len_subset(ri.to_set(), range);
    if n <= usize::MAX + 1 && (forall|j: int| 0 <= j < n ==> #[trigger] r.contains(j as usize)) {
        assert(range.subset_of(ri.to_set())) by {
            assert forall|x: int| range.contains(x) implies ri.to_set().contains(x) by {
                assert(r.contains(x as usize));
                let k = choose|k: int| 0 <= k < r.len() && r[k] == x as usize;
                assert(ri[k] == x);
            }
        }
        seq_to_set_is_finite(ri);
        lemma_len_subset(range, ri.to_set());
    }
}

/// Raising the limit only adds lower-ranked results: the ranking for a limit
/// `k` is the start of the ranking for any limit `m >= k`.
pub proof fn lemma_top_limit_prefix(
    scores: Seq<Option<u8>>,
    modified: Seq<u64>,
    k: nat,
    m: nat,
    r1: Seq<usize>,
    r2: Seq<usize>,
)
    requires
        scores.len() <= usize::MAX,
        k <= m,
        is_top(scores, modified, k, r1),
        is_top(scores, modified, m, r2),
    ensures
        r1.len() <= r2.len(),
        r1 == r2.take(r1.len() as int),
{
    let n: int = if k < r2.len() { k as int } else { r2.len() as int };
    let t = r2.take(n);
    assert forall|k1: int| 0 <= k1 < t.len() implies (#[trigger] t[k1]) < scores.len() && scores[t[k1] as int] is Some by {
        assert(t[k1] == r2[k1]);
    }
    assert forall|a: int, b: int| 0 <= a < b < t.len() implies ranks_before(scores, modified, t[a] as int, t[b] as int) by {
        assert(t[a] == r2[a] && t[b] == r2[b]);
    }
    assert forall|j: int|
        0 <= j < scores.len() && (#[trigger] scores[j]) is Some && !t.contains(j as usize) implies {
            &&& t.len() == k
            &&& forall|q: int| 0 <= q < t.len() ==> ranks_before(scores, modified, #[trigger] t[q] as int, j)
        } by {
        if r2.contains(j as usize) {
            let p = choose|p: int| 0 <= p < r2.len() && r2[p] == j as usize;
            if p < n {
                assert(t[p] == j as usize);
            }
            assert(n == k);
            assert forall|q: int| 0 <= q < t.len() implies ranks_before(scores, modified, #[trigger] t[q] as int, j) by {
                assert(t[q] == r2[q]);
                assert(ranks_before(scores, modified, r2[q] as int, r2[p] as int));
            }
        } else {
            assert(scores[j] is Some && !r2.contains(j as usize));
            assert(r2.len() == m);
            assert forall|q: int| 0 <= q < t.len() implies ranks_before(scores, modified, #[trigger] t[q] as int, j) by {
                assert(t[q] == r2[q]);
                assert(0 <= q < r2.len());
                assert(ranks_before(scores, modified, r2[q] as int, j));
            }
        }
    }
    assert(is_top(scores, modified, k, t));
    lemma_top_unique(scores, modified, k, r1, t);
}

/// The same, for the entries a search returns.
pub proof fn lemma_search_limit_prefix(
    entries: Seq<Entry>,
    query: Seq<char>,
    k: nat,
    m: nat,
    r1: Seq<usize>,
    r2: Seq<usize>,
)
    requires
        entries.len() <= usize::MAX,
        k <= m,
        is_top(entry_scores(entries, query), modified_times(entries), k, r1),
        is_top(entry_scores(entries, query), modified_times(entries), m, r2),
    ensures
        r1.len() <= r2.len(),
        r1 == r2.take(r1.len() as int),
{
    lemma_top_limit_prefix(entry_scores(entries, query), modified_times(entries), k, m, r1, r2);
}

/// Queries that are matched as the same text give the same ranking.
pub proof fn lemma_same_query_text_same_ranking(
    entries: Seq<Entry>,
    q1: Seq<char>,
    q2: Seq<char>,
    limit: nat,
    r1: Seq<usize>,
    r2: Seq<usize>,
)
    requires
        query_text(q1) == query_text(q2),
        is_top(entry_scores(entries, q1), modified_times(entries), limit, r1),
        is_top(entry_scores(entries, q2), modified_times(entries), limit, r2),
    ensures
        r1 == r2,
{
    assert(entry_scores(entries, q1) =~= entry_scores(entries, q2));
    lemma_top_unique(entry_scores(entries, q1), modified_times(entries), limit, r1, r2);
}

/// Search ignores ASCII case and surrounding whitespace: a query padded with
/// whitespace and with its ASCII letters uppercased ranks exactly as the query.
pub proof fn lemma_search_ignores_case_and_blanks(
    entries: Seq<Entry>,
    query: Seq<char>,
    before: Seq<char>,
    after: Seq<char>,
    limit: nat,
    r1: Seq<usize>,
    r2: Seq<usize>,
)
    requires
        is_ascii_text(trim(query)),
        forall|i: int| 0 <= i < before.len() ==> is_space(#[trigger] before[i]),
        forall|i: int| 0 <= i < after.len() ==> is_space(#[trigger] after[i]),
        is_top(entry_scores(entries, query), modified_times(entries), limit, r1),
        is_top(
            entry_scores(entries, before + ascii_upper(query) + after),
            modified_times(entries),
            limit,
            r2,
        ),
    ensures
        r1 == r2,
{
    let padded = before + ascii_upper(query) + after;
    lemma_trim_padded_upper(query, before, after);
    lemma_lower_ignores_ascii_case(trim(query));
    assert(query_text(padded) == query_text(query));
    lemma_same_query_text_same_ranking(entries, query, padded, limit, r1, r2);
}

/// Score of one entry, given its lowercased name, its searchable text, the
/// matched query text and that text's words.
pub fn score(name: &[char], searchable: &[char], query: &[char], query_words: &Vec<Vec<char>>) -> (r:
    Option<u8>)
    ensures
        r == match_score(name@, searchable@, query@, texts(query_words@)),
{
    if query.len() == 0 || same_chars(name, query) {
        return Some(0);
    }
    if starts_with(name, query) {
        return Some(1);
    }
    if contains_chars(name, query) {
        return Some(2);
    }
    let mut all = true;
    let mut k: usize = 0;
    while k < query_words.len()
        invariant
            k <= query_words@.len(),
            all == forall|j: int| 0 <= j < k ==> contains(searchable@, #[trigger] texts(query_words@)[j]),
        decreases query_words@.len() - k,
    {
        let found = contains_chars(searchable, query_words[k].as_slice());
        proof {
            assert(texts(query_words@)[k as int] == query_words@[k as int]@);
            if all && found {
                assert forall|j: int| 0 <= j < k + 1 implies contains(searchable@, #[trigger] texts(query_words@)[j]) by {
                }
            }
        }
        all = all && found;
        k = k + 1;
    }
    if all {
        return Some(3);
    }
    if utf8_longer_than(query, 1) && subsequence(name, query) {
        return Some(4);
    }
    None
}

/// Does `a` rank ahead of `b`?
fn before(scores: &Vec<Option<u8>>, modified: &Vec<u64>, a: usize, b: usize) -> (r: bool)
    requires
        a < scores@.len(),
        b < scores@.len(),
        scores@.len() == modified@.len(),
        scores@[a as int] is Some,
        scores@[b as int] is Some,
    ensures
        r == ranks_before(scores@, modified@, a as int, b as int),
{
    let sa = match scores[a] {
        Some(s) => s,
        None => 0,
    };
    let sb = match scores[b] {
        Some(s) => s,
        None => 0,
    };
    sa < sb || (sa == sb && modified[a] > modified[b]) || (sa == sb && modified[a] == modified[b]
        && a < b)
}

/// The best `limit` matching positions, best first.
pub fn top_matches(scores: &Vec<Option<u8>>, modified: &Vec<u64>, limit: usize) -> (r: Vec<usize>)
    requires
        scores@.len() == modified@.len(),
    ensures
        is_top(scores@, modified@, limit as nat, r@),
{
    let mut kept: Vec<usize> = Vec::new();
    let n = scores.len();
    let mut i: usize = 0;
    while i < n
        invariant
            n == scores@.len() == modified@.len(),
            i <= n,
            kept@.len() <= limit,
            forall|k: int|
                0 <= k < kept@.len() ==> (#[trigger] kept@[k]) < i && scores@[kept@[k] as int] is Some,
            forall|a: int, b: int|
                0 <= a < b < kept@.len() ==> ranks_before(scores@, modified@, kept@[a] as int, kept@[b] as int),
            forall|j: int|
                0 <= j < i && (#[trigger] scores@[j]) is Some && !kept@.contains(j as usize) ==> {
                    &&& kept@.len() == limit
                    &&& forall|k: int|
                        0 <= k < kept@.len() ==> ranks_before(scores@, modified@, #[trigger] kept@[k] as int, j)
                },
        decreases n - i,
    {
        if scores[i].is_some() {
            let mut p: usize = 0;
            while p < kept.len() && !before(scores, modified, i, kept[p])
                invariant
                    n == scores@.len() == modified@.len(),
                    i < n,
                    scores@[i as int] is Some,
                    p <= kept@.len(),
                    forall|k: int|
                        0 <= k < kept@.len() ==> (#[trigger] kept@[k]) < i && scores@[kept@[k] as int] is Some,
                    forall|k: int|
                        0 <= k < p ==> ranks_before(scores@, modified@, #[trigger] kept@[k] as int, i as int),
                decreases kept@.len() - p,
            {
                p = p + 1;
            }
            let ghost old_kept = kept@;
            if p < limit {
                kept.insert(p, i);
                let ghost inserted = kept@;
                proof {
                    assert forall|a: int, b: int|
                        0 <= a < b < inserted.len() implies ranks_before(scores@, modified@, inserted[a] as int, inserted[b] as int) by {
                        if b < p {
                            assert(inserted[a] == old_kept[a] && inserted[b] == old_kept[b]);
                        } else if b == p {
                            assert(inserted[a] == old_kept[a]);
                        } else if a == p {
                            assert(ranks_before(scores@, modified@, i as int, old_kept[p as int] as int));
                            if b - 1 > p {
                                lemma_ranks_transitive(scores@, modified@, i as int, old_kept[p as int] as int, old_kept[b - 1] as int);
                            }
                        } else if a < p {
                            assert(inserted[a] == old_kept[a] && inserted[b] == old_kept[b - 1]);
                        } else {
                            assert(inserted[a] == old_kept[a - 1] && inserted[b] == old_kept[b - 1]);
                        }
                    }
                }
                if kept.len() > limit {
                    kept.pop();
                    proof {
                        let e = inserted.last();
                        assert(inserted.len() == limit + 1);
                        assert forall|j: int|
                            0 <= j < i + 1 && (#[trigger] scores@[j]) is Some && !kept@.contains(j as usize) implies {
                                &&& kept@.len() == limit
                                &&& forall|k: int|
                                    0 <= k < kept@.len() ==> ranks_before(scores@, modified@, #[trigger] kept@[k] as int, j)
                            } by {
                            if j == e {
                                assert forall|k: int| 0 <= k < kept@.len() implies ranks_before(scores@, modified@, #[trigger] kept@[k] as int, j) by {
                                    assert(kept@[k] == inserted[k]);
                                }
                            } else {
                                assert(j != i) by {
                                    assert(inserted[p as int] == i);
                                    assert(kept@[p as int] == i);
                                }
                                assert(!old_kept.contains(j as usize)) by {
                                    if old_kept.contains(j as usize) {
                                        let t = choose|t: int| 0 <= t < old_kept.len() && old_kept[t] == j;
                                        if t < p {
                                            assert(kept@[t] == j);
                                        } else {
                                            assert(inserted[t + 1] == j);
                                            if t + 1 < kept@.len() {
                                                assert(kept@[t + 1] == j);
                                            }
                                        }
                                    }
                                }
                                assert forall|k: int| 0 <= k < kept@.len() implies ranks_before(scores@, modified@, #[trigger] kept@[k] as int, j) by {
                                    if k < p {
                                        assert(kept@[k] == old_kept[k]);
                                    } else if k == p {
                                        assert(ranks_before(scores@, modified@, i as int, old_kept[p as int] as int));
                                        lemma_ranks_transitive(scores@, modified@, i as int, old_kept[p as int] as int, j);
                                    } else {
                                        assert(kept@[k] == old_kept[k - 1]);
                                    }
                                }
                            }
                        }
                    }
                } else {
                    proof {
                        assert forall|j: int|
                            0 <= j < i + 1 && (#[trigger] scores@[j]) is Some && !kept@.contains(j as usize) implies false by {
                            if j == i {
                                assert(kept@[p as int] == i);
                            } else {
                                assert(!old_kept.contains(j as usize)) by {
                                    if old_kept.contains(j as usize) {
                                        let t = choose|t: int| 0 <= t < old_kept.len() && old_kept[t] == j;
                                        if t < p {
                                            assert(kept@[t] == j);
                                        } else {
                                            assert(kept@[t + 1] == j);
                                        }
                                    }
                                }
                            }
                        }
                    }
                }
                assert forall|k: int| 0 <= k < kept@.len() implies (#[trigger] kept@[k]) < i + 1 && scores@[kept@[k] as int] is Some by {
                    assert(kept@[k] == inserted[k]);
                    if k < p {
                        assert(inserted[k] == old_kept[k]);
                    } else if k > p {
                        assert(inserted[k] == old_kept[k - 1]);
                    }
                }
            } else {
                proof {
                    assert forall|j: int|
                        0 <= j < i + 1 && (#[trigger] scores@[j]) is Some && !kept@.contains(j as usize) implies {
                            &&& kept@.len() == limit
                            &&& forall|k: int|
                                0 <= k < kept@.len() ==> ranks_before(scores@, modified@, #[trigger] kept@[k] as int, j)
                        } by {
                        if j == i {
                            assert forall|k: int| 0 <= k < kept@.len() implies ranks_before(scores@, modified@, #[trigger] kept@[k] as int, j) by {
                            }
                        }
                    }
                }
            }
        }
        i = i + 1;
    }
    kept
}

impl Snapshot {
    /// Ranked positions of the entries matching `query`, at most `limit` of them.
    pub fn search_indices(&self, query: &str, limit: usize) -> (r: Vec<usize>)
        ensures
            is_top(
                entry_scores(self.entries@, query@),
                modified_times(self.entries@),
                limit as nat,
                r@,
            ),
    {
        if limit == 0 {
            return Vec::new();
        }
        let raw = chars_of(query);
        let t = trimmed(raw.as_slice());
        let q = to_lowercase(t.as_slice());
        let query_words = split_words(q.as_slice());
        let mut scores: Vec<Option<u8>> = Vec::new();
        let mut modified: Vec<u64> = Vec::new();
        let n = self.entries.len();
        let mut i: usize = 0;
        while i < n
            invariant
                n == self.entries@.len(),
                i <= n,
                q@ == query_text(query@),
                texts(query_words@) == words(q@),
                scores@ == entry_scores(self.entries@, query@).take(i as int),
                modified@ == modified_times(self.entries@).take(i as int),
            decreases n - i,
        {
            let entry = &self.entries[i];
            let name_chars = chars_of(entry.name.as_str());
            let name = to_lowercase(name_chars.as_slice());
            let s = score(name.as_slice(), entry.searchable.as_slice(), q.as_slice(), &query_words);
            scores.push(s);
            modified.push(entry.modified);
            assert(scores@ =~= entry_scores(self.entries@, query@).take(i + 1));
            assert(modified@ =~= modified_times(self.entries@).take(i + 1));
            i = i + 1;
        }
        assert(scores@ =~= entry_scores(self.entries@, query@));
        assert(modified@ =~= modified_times(self.entries@));
        top_matches(&scores, &modified, limit)
    }

    /// The entries matching `query`, best first, at most `limit` of them.
    pub fn search(&self, query: &str, limit: usize) -> (r: Vec<Entry>)
        ensures
            exists|idx: Seq<usize>|
                {
                    &&& is_top(
                        entry_scores(self.entries@, query@),
                        modified_times(self.entries@),
                        limit as nat,
                        idx,
                    )
                    &&& r@.len() == idx.len()
                    &&& forall|k: int|
                        0 <= k < idx.len() ==> r@[k].same_as(self.entries@[#[trigger] idx[k] as int])
                },
    {
        let idx = self.search_indices(query, limit);
        let mut r: Vec<Entry> = Vec::new();
        let mut k: usize = 0;
        while k < idx.len()
            invariant
                k <= idx@.len(),
                is_top(
                    entry_scores(self.entries@, query@),
                    modified_times(self.entries@),
                    limit as nat,
                    idx@,
                ),
                r@.len() == k,
                forall|j: int| 0 <= j < k ==> r@[j].same_as(self.entries@[#[trigger] idx@[j] as int]),
            decreases idx@.len() - k,
        {
            let p = idx[k];
            assert(p < entry_scores(self.entries@, query@).len());
            r.push(self.entries[p].duplicate());
            k = k + 1;
        }
        r
    }
}

} // verus!
