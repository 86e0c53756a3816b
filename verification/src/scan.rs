//! Building a snapshot from what a directory walk reported: exclusions,
//! duplicate paths from overlapping roots, unreadable items and path order.
use vstd::prelude::*;

use crate::index::{Entry, Snapshot};
use crate::text::{chars_of, is_text, lower, texts};

verus! {

/// Folder names whose whole subtree is left out of the index.
pub open spec fn is_excluded_name(name: Seq<char>) -> bool {
    ||| name == "node_modules"@
    ||| name == "target"@
    ||| name == "$RECYCLE.BIN"@
    ||| name == "System Volume Information"@
    ||| name == "AppData"@
    ||| name == ".git"@
}

/// Exactly six folder names are left out of the index: `node_modules`, `target`,
/// `$RECYCLE.BIN`, `System Volume Information`, `AppData` and `.git`; every
/// other name is walked.
pub proof fn lemma_excluded_names_are_the_six(name: Seq<char>)
    ensures
        is_excluded_name(name) <==> set![
            "node_modules"@,
            "target"@,
            "$RECYCLE.BIN"@,
            "System Volume Information"@,
            "AppData"@,
            ".git"@,
        ].contains(name),
{
}

/// Whether the walk should not descend into (or list) an item with this name.
pub fn excluded_name(name: &str) -> (r: bool)
    ensures
        r == is_excluded_name(name@),
{
    let n = chars_of(name);
    is_text(n.as_slice(), "node_modules") || is_text(n.as_slice(), "target") || is_text(
        n.as_slice(),
        "$RECYCLE.BIN",
    ) || is_text(n.as_slice(), "System Volume Information") || is_text(n.as_slice(), "AppData")
        || is_text(n.as_slice(), ".git")
}

/// What the walk knows of an item's type.
#[derive(Debug)]
pub enum FileType {
    /// The walk could not tell.
    Unknown,
    Symlink,
    /// A file or a folder.
    Other,
}

/// What reading an item's metadata gave.
#[derive(Debug)]
pub enum Metadata {
    Unreadable,
    Readable { directory: bool, modified: u64 },
}

/// An item reported by the walk.
#[derive(Debug)]
pub struct Found {
    /// Full path, as text.
    pub path: String,
    /// The path's components, each a kind tag character followed by its text;
    /// paths are compared and deduplicated by these.
    pub components: Vec<Vec<char>>,
    /// Final component, as text.
    pub name: String,
    /// Number of folders below the walk root (0 for the root itself).
    pub depth: usize,
    pub file_type: FileType,
    pub metadata: Metadata,
}

/// One step of the walk: an item, or an error reading the tree.
#[derive(Debug)]
pub enum Walked {
    Error,
    Item(Found),
}

/// Text order: by character, a proper prefix first.
pub open spec fn text_lt(a: Seq<char>, b: Seq<char>) -> bool
    decreases a.len(),
{
    if b.len() == 0 {
        false
    } else if a.len() == 0 {
        true
    } else if a[0] != b[0] {
        a[0] < b[0]
    } else {
        text_lt(a.drop_first(), b.drop_first())
    }
}

/// Path order: by component, a proper prefix first.
pub open spec fn path_lt(a: Seq<Seq<char>>, b: Seq<Seq<char>>) -> bool
    decreases a.len(),
{
    if b.len() == 0 {
        false
    } else if a.len() == 0 {
        true
    } else if a[0] != b[0] {
        text_lt(a[0], b[0])
    } else {
        path_lt(a.drop_first(), b.drop_first())
    }
}

proof fn lemma_text_lt_irreflexive(a: Seq<char>)
    ensures
        !text_lt(a, a),
    decreases a.len(),
{
    if a.len() > 0 {
        lemma_text_lt_irreflexive(a.drop_first());
    }
}

proof fn lemma_text_lt_transitive(a: Seq<char>, b: Seq<char>, c: Seq<char>)
    requires
        text_lt(a, b),
        text_lt(b, c),
    ensures
        text_lt(a, c),
    decreases a.len(),
{
    if a.len() > 0 && b.len() > 0 && c.len() > 0 && a[0] == b[0] && b[0] == c[0] {
        lemma_text_lt_transitive(a.drop_first(), b.drop_first(), c.drop_first());
    }
}

proof fn lemma_text_lt_total(a: Seq<char>, b: Seq<char>)
    requires
        a != b,
    ensures
        text_lt(a, b) || text_lt(b, a),
    decreases a.len(),
{
    if a.len() > 0 && b.len() > 0 && a[0] == b[0] {
        if a.drop_first() == b.drop_first() {
            assert(a =~= seq![a[0]] + a.drop_first());
            assert(b =~= seq![b[0]] + b.drop_first());
        }
        lemma_text_lt_total(a.drop_first(), b.drop_first());
    } else if a.len() == 0 && b.len() == 0 {
        assert(a =~= b);
    }
}

proof fn lemma_path_lt_irreflexive(a: Seq<Seq<char>>)
    ensures
        !path_lt(a, a),
    decreases a.len(),
{
    if a.len() > 0 {
        lemma_path_lt_irreflexive(a.drop_first());
    }
}

proof fn lemma_path_lt_transitive(a: Seq<Seq<char>>, b: Seq<Seq<char>>, c: Seq<Seq<char>>)
    requires
        path_lt(a, b),
        path_lt(b, c),
    ensures
        path_lt(a, c),
    decreases a.len(),
{
    if a.len() > 0 && b.len() > 0 && c.len() > 0 {
        if a[0] == b[0] && b[0] == c[0] {
            lemma_path_lt_transitive(a.drop_first(), b.drop_first(), c.drop_first());
        } else if a[0] != b[0] && b[0] != c[0] {
            lemma_text_lt_transitive(a[0], b[0], c[0]);
            if a[0] == c[0] {
                lemma_text_lt_irreflexive(a[0]);
            }
        }
    }
}

proof fn lemma_path_lt_total(a: Seq<Seq<char>>, b: Seq<Seq<char>>)
    requires
        a != b,
    ensures
        path_lt(a, b) || path_lt(b, a),
    decreases a.len(),
{
    if a.len() > 0 && b.len() > 0 {
        if a[0] == b[0] {
            if a.drop_first() == b.drop_first() {
                assert(a =~= seq![a[0]] + a.drop_first());
                assert(b =~= seq![b[0]] + b.drop_first());
            }
            lemma_path_lt_total(a.drop_first(), b.drop_first());
        } else {
            lemma_text_lt_total(a[0], b[0]);
        }
    } else if a.len() == 0 && b.len() == 0 {
        assert(a =~= b);
    }
}

proof fn lemma_path_lt_asymmetric(a: Seq<Seq<char>>, b: Seq<Seq<char>>)
    requires
        path_lt(a, b),
    ensures
        !path_lt(b, a),
{
    if path_lt(b, a) {
        lemma_path_lt_transitive(a, b, a);
        lemma_path_lt_irreflexive(a);
    }
}

/// Compare two texts: negative, zero or positive as `a` sorts before, equal to or after `b`.
fn compare_text(a: &[char], b: &[char]) -> (r: i8)
    ensures
        (r < 0) == text_lt(a@, b@),
        (r == 0) == (a@ == b@),
        (r > 0) == text_lt(b@, a@),
{
    let mut i: usize = 0;
    assert(a@.skip(0) =~= a@ && b@.skip(0) =~= b@);
    loop
        invariant
            i <= a@.len(),
            i <= b@.len(),
            a@.take(i as int) == b@.take(i as int),
            text_lt(a@, b@) == text_lt(a@.skip(i as int), b@.skip(i as int)),
            text_lt(b@, a@) == text_lt(b@.skip(i as int), a@.skip(i as int)),
        decreases a@.len() - i,
    {
        let ghost sa = a@.skip(i as int);
        let ghost sb = b@.skip(i as int);
        if i == a.len() || i == b.len() {
            proof {
                if i == a.len() && i == b.len() {
                    assert(a@ =~= a@.take(i as int));
                    assert(b@ =~= b@.take(i as int));
                } else if i == a.len() {
                    assert(a@ =~= a@.take(i as int));
                    assert(a@.len() < b@.len());
                } else {
                    assert(b@ =~= b@.take(i as int));
                    assert(a@.len() > b@.len());
                }
            }
            if i == a.len() && i == b.len() {
                return 0;
            } else if i == a.len() {
                return -1;
            } else {
                return 1;
            }
        }
        assert(sa[0] == a@[i as int] && sb[0] == b@[i as int]);
        if a[i] != b[i] {
            proof {
                if a@ == b@ {
                    assert(a@[i as int] == b@[i as int]);
                }
            }
            if a[i] < b[i] {
                return -1;
            } else {
                return 1;
            }
        }
        assert(sa.drop_first() =~= a@.skip(i + 1));
        assert(sb.drop_first() =~= b@.skip(i + 1));
        assert(a@.take(i + 1) =~= a@.take(i as int).push(a@[i as int]));
        assert(b@.take(i + 1) =~= b@.take(i as int).push(b@[i as int]));
        i = i + 1;
    }
}

/// Compare two component lists in path order.
pub(crate) fn compare_path(a: &Vec<Vec<char>>, b: &Vec<Vec<char>>) -> (r: i8)
    ensures
        (r < 0) == path_lt(texts(a@), texts(b@)),
        (r == 0) == (texts(a@) == texts(b@)),
        (r > 0) == path_lt(texts(b@), texts(a@)),
{
    let ghost ta = texts(a@);
    let ghost tb = texts(b@);
    let mut i: usize = 0;
    assert(ta.skip(0) =~= ta && tb.skip(0) =~= tb);
    loop
        invariant
            ta == texts(a@),
            tb == texts(b@),
            i <= a@.len(),
            i <= b@.len(),
            ta.take(i as int) == tb.take(i as int),
            path_lt(ta, tb) == path_lt(ta.skip(i as int), tb.skip(i as int)),
            path_lt(tb, ta) == path_lt(tb.skip(i as int), ta.skip(i as int)),
        decreases a@.len() - i,
    {
        let ghost sa = ta.skip(i as int);
        let ghost sb = tb.skip(i as int);
        if i == a.len() || i == b.len() {
            proof {
                if i == a.len() && i == b.len() {
                    assert(ta =~= ta.take(i as int));
                    assert(tb =~= tb.take(i as int));
                } else if i == a.len() {
                    assert(ta =~= ta.take(i as int));
                    assert(ta.len() < tb.len());
                } else {
                    assert(tb =~= tb.take(i as int));
                    assert(ta.len() > tb.len());
                }
            }
            if i == a.len() && i == b.len() {
                return 0;
            } else if i == a.len() {
                return -1;
            } else {
                return 1;
            }
        }
        assert(sa[0] == a@[i as int]@ && sb[0] == b@[i as int]@);
        let c = compare_text(a[i].as_slice(), b[i].as_slice());
        if c != 0 {
            proof {
                if ta == tb {
                    assert(ta[i as int] == tb[i as int]);
                }
            }
            return c;
        }
        assert(sa.drop_first() =~= ta.skip(i + 1));
        assert(sb.drop_first() =~= tb.skip(i + 1));
        assert(ta.take(i + 1) =~= ta.take(i as int).push(ta[i as int]));
        assert(tb.take(i + 1) =~= tb.take(i as int).push(tb[i as int]));
        i = i + 1;
    }
}

/// The walk step is an item below a root whose type is known and not a symlink.
pub open spec fn is_candidate(w: Walked) -> bool {
    &&& w is Item
    &&& w->Item_0.depth != 0
    &&& w->Item_0.file_type is Other
}

/// The component list of a walk step that is an item.
pub open spec fn key_of(w: Walked) -> Seq<Seq<char>> {
    texts(w->Item_0.components@)
}

/// Item `k` is the first candidate with its path.
pub open spec fn is_first(items: Seq<Walked>, k: int) -> bool {
    &&& is_candidate(items[k])
    &&& forall|j: int|
        0 <= j < k && is_candidate(#[trigger] items[j]) ==> key_of(items[j]) != key_of(items[k])
}

/// Item `k` becomes an entry: the first candidate with its path, with readable metadata.
pub open spec fn is_kept(items: Seq<Walked>, k: int) -> bool {
    is_first(items, k) && items[k]->Item_0.metadata is Readable
}

/// Item `k` is counted as unreadable: a walk error, or the first candidate with
/// its path whose metadata could not be read.
pub open spec fn is_skipped(items: Seq<Walked>, k: int) -> bool {
    items[k] is Error || (is_first(items, k) && items[k]->Item_0.metadata is Unreadable)
}

/// Number of items among the first `n` that are counted as unreadable.
pub open spec fn skipped_count(items: Seq<Walked>, n: int) -> nat
    decreases n,
{
    if n <= 0 {
        0
    } else {
        skipped_count(items, n - 1) + if is_skipped(items, n - 1) {
            1nat
        } else {
            0nat
        }
    }
}

/// Position `a` sorts before position `b`: by path, then by position.
pub open spec fn sorts_before(items: Seq<Walked>, a: int, b: int) -> bool {
    ||| path_lt(key_of(items[a]), key_of(items[b]))
    ||| (key_of(items[a]) == key_of(items[b]) && a < b)
}

proof fn lemma_sorts_before_transitive(items: Seq<Walked>, a: int, b: int, c: int)
    requires
        sorts_before(items, a, b),
        sorts_before(items, b, c),
    ensures
        sorts_before(items, a, c),
{
    let (ka, kb, kc) = (key_of(items[a]), key_of(items[b]), key_of(items[c]));
    if path_lt(ka, kb) && path_lt(kb, kc) {
        lemma_path_lt_transitive(ka, kb, kc);
    }
}

proof fn lemma_sorts_before_total(items: Seq<Walked>, a: int, b: int)
    requires
        a != b,
    ensures
        sorts_before(items, a, b) || sorts_before(items, b, a),
{
    if key_of(items[a]) != key_of(items[b]) {
        lemma_path_lt_total(key_of(items[a]), key_of(items[b]));
    }
}

proof fn lemma_sorts_before_asymmetric(items: Seq<Walked>, a: int, b: int)
    requires
        sorts_before(items, a, b),
    ensures
        !sorts_before(items, b, a),
{
    if path_lt(key_of(items[a]), key_of(items[b])) {
        lemma_path_lt_asymmetric(key_of(items[a]), key_of(items[b]));
        if key_of(items[a]) == key_of(items[b]) {
            lemma_path_lt_irreflexive(key_of(items[a]));
        }
    } else {
        lemma_path_lt_irreflexive(key_of(items[a]));
    }
}

/// `s` lists positions strictly in `sorts_before` order.
pub open spec fn sorted_positions(items: Seq<Walked>, s: Seq<usize>) -> bool {
    forall|a: int, b: int| 0 <= a < b < s.len() ==> sorts_before(items, s[a] as int, s[b] as int)
}

fn item_components(items: &Vec<Walked>, p: usize) -> (r: &Vec<Vec<char>>)
    requires
        p < items@.len(),
        items@[p as int] is Item,
    ensures
        texts(r@) == key_of(items@[p as int]),
{
    match &items[p] {
        Walked::Item(f) => &f.components,
        Walked::Error => vstd::pervasive::unreached(),
    }
}

} // verus!

verus! {

/// Every listed position is a candidate item of the walk.
pub open spec fn candidates_only(items: Seq<Walked>, s: Seq<usize>) -> bool {
    forall|k: int| 0 <= k < s.len() ==> (#[trigger] s[k]) < items.len() && is_candidate(items[s[k] as int])
}

fn positions_before(items: &Vec<Walked>, a: usize, b: usize) -> (r: bool)
    requires
        a < items@.len(),
        b < items@.len(),
        items@[a as int] is Item,
        items@[b as int] is Item,
    ensures
        r == sorts_before(items@, a as int, b as int),
{
    let c = compare_path(item_components(items, a), item_components(items, b));
    c < 0 || (c == 0 && a < b)
}

proof fn lemma_push_to_set<A>(s: Seq<A>, x: A)
    ensures
        s.push(x).to_set() == s.to_set().insert(x),
{
    s.lemma_push_to_set_commute(x);
}

/// Merge two sorted, disjoint lists of candidate positions.
fn merge(items: &Vec<Walked>, left: Vec<usize>, right: Vec<usize>) -> (r: Vec<usize>)
    requires
        candidates_only(items@, left@),
        candidates_only(items@, right@),
        sorted_positions(items@, left@),
        sorted_positions(items@, right@),
        forall|p: int, q: int| 0 <= p < left@.len() && 0 <= q < right@.len() ==> left@[p] != right@[q],
    ensures
        candidates_only(items@, r@),
        sorted_positions(items@, r@),
        r@.to_set() == left@.to_set() + right@.to_set(),
{
    let mut out: Vec<usize> = Vec::new();
    let mut i: usize = 0;
    let mut j: usize = 0;
    assert(out@.to_set() =~= left@.take(0).to_set() + right@.take(0).to_set());
    while i < left.len() || j < right.len()
        invariant
            i <= left@.len(),
            j <= right@.len(),
            candidates_only(items@, left@),
            candidates_only(items@, right@),
            sorted_positions(items@, left@),
            sorted_positions(items@, right@),
            forall|p: int, q: int| 0 <= p < left@.len() && 0 <= q < right@.len() ==> left@[p] != right@[q],
            candidates_only(items@, out@),
            sorted_positions(items@, out@),
            out@.to_set() == left@.take(i as int).to_set() + right@.take(j as int).to_set(),
            i < left@.len() ==> forall|k: int|
                0 <= k < out@.len() ==> sorts_before(items@, #[trigger] out@[k] as int, left@[i as int] as int),
            j < right@.len() ==> forall|k: int|
                0 <= k < out@.len() ==> sorts_before(items@, #[trigger] out@[k] as int, right@[j as int] as int),
        decreases left@.len() + right@.len() - i - j,
    {
        let take_left = if j == right.len() {
            true
        } else if i == left.len() {
            false
        } else {
            positions_before(items, left[i], right[j])
        };
        let ghost old_out = out@;
        if take_left {
            let a = left[i];
            out.push(a);
            proof {
                lemma_push_to_set(old_out, a);
                lemma_push_to_set(left@.take(i as int), a);
                assert(left@.take(i + 1) =~= left@.take(i as int).push(a));
                assert(out@.to_set() =~= left@.take(i + 1).to_set() + right@.take(j as int).to_set());
                if i + 1 < left@.len() {
                    assert(sorts_before(items@, a as int, left@[i + 1] as int));
                    assert forall|k: int| 0 <= k < out@.len() implies sorts_before(items@, #[trigger] out@[k] as int, left@[i + 1] as int) by {
                        if k < old_out.len() {
                            lemma_sorts_before_transitive(items@, out@[k] as int, a as int, left@[i + 1] as int);
                        }
                    }
                }
                if j < right@.len() {
                    assert forall|k: int| 0 <= k < out@.len() implies sorts_before(items@, #[trigger] out@[k] as int, right@[j as int] as int) by {
                    }
                }
            }
            i = i + 1;
        } else {
            let b = right[j];
            out.push(b);
            proof {
                if i < left@.len() {
                    assert(left@[i as int] != b);
                    lemma_sorts_before_total(items@, left@[i as int] as int, b as int);
                }
                lemma_push_to_set(old_out, b);
                lemma_push_to_set(right@.take(j as int), b);
                assert(right@.take(j + 1) =~= right@.take(j as int).push(b));
                assert(out@.to_set() =~= left@.take(i as int).to_set() + right@.take(j + 1).to_set());
                if j + 1 < right@.len() {
                    assert(sorts_before(items@, b as int, right@[j + 1] as int));
                    assert forall|k: int| 0 <= k < out@.len() implies sorts_before(items@, #[trigger] out@[k] as int, right@[j + 1] as int) by {
                        if k < old_out.len() {
                            lemma_sorts_before_transitive(items@, out@[k] as int, b as int, right@[j + 1] as int);
                        }
                    }
                }
                if i < left@.len() {
                    assert forall|k: int| 0 <= k < out@.len() implies sorts_before(items@, #[trigger] out@[k] as int, left@[i as int] as int) by {
                    }
                }
            }
            j = j + 1;
        }
    }
    assert(left@.take(i as int) =~= left@);
    assert(right@.take(j as int) =~= right@);
    out
}

/// Sort `v[lo..hi]` (distinct candidate positions) into `sorts_before` order.
fn sort_positions(items: &Vec<Walked>, v: &Vec<usize>, lo: usize, hi: usize) -> (r: Vec<usize>)
    requires
        lo <= hi <= v@.len(),
        candidates_only(items@, v@),
        forall|a: int, b: int| 0 <= a < b < v@.len() ==> v@[a] != v@[b],
    ensures
        candidates_only(items@, r@),
        sorted_positions(items@, r@),
        r@.to_set() == v@.subrange(lo as int, hi as int).to_set(),
    decreases hi - lo,
{
    if hi - lo <= 1 {
        let mut r: Vec<usize> = Vec::new();
        if hi > lo {
            r.push(v[lo]);
        }
        assert(r@ =~= v@.subrange(lo as int, hi as int));
        return r;
    }
    let mid = lo + (hi - lo) / 2;
    let left = sort_positions(items, v, lo, mid);
    let right = sort_positions(items, v, mid, hi);
    proof {
        let s1 = v@.subrange(lo as int, mid as int);
        let s2 = v@.subrange(mid as int, hi as int);
        assert forall|p: int, q: int| 0 <= p < left@.len() && 0 <= q < right@.len() implies left@[p] != right@[q] by {
            assert(left@.to_set().contains(left@[p]));
            assert(s1.contains(left@[p]));
            let a = choose|a: int| 0 <= a < s1.len() && s1[a] == left@[p];
            assert(right@.to_set().contains(right@[q]));
            assert(s2.contains(right@[q]));
            let b = choose|b: int| 0 <= b < s2.len() && s2[b] == right@[q];
            assert(v@[lo + a] == left@[p]);
            assert(v@[mid + b] == right@[q]);
        }
        assert forall|x: usize| v@.subrange(lo as int, hi as int).contains(x) <==> (s1.contains(x) || s2.contains(x)) by {
            let s = v@.subrange(lo as int, hi as int);
            if s.contains(x) {
                let k = choose|k: int| 0 <= k < s.len() && s[k] == x;
                if k < mid - lo {
                    assert(s1[k] == x);
                } else {
                    assert(s2[k - (mid - lo)] == x);
                }
            }
            if s1.contains(x) {
                let k = choose|k: int| 0 <= k < s1.len() && s1[k] == x;
                assert(s[k] == x);
            }
            if s2.contains(x) {
                let k = choose|k: int| 0 <= k < s2.len() && s2[k] == x;
                assert(s[k + (mid - lo)] == x);
            }
        }
        assert(v@.subrange(lo as int, hi as int).to_set() =~= s1.to_set() + s2.to_set());
    }
    merge(items, left, right)
}

} // verus!

verus! {

/// `r` lists, in strictly increasing path order, exactly the walk positions
/// that become entries.
pub open spec fn lists_kept(items: Seq<Walked>, r: Seq<usize>) -> bool {
    &&& forall|k: int| 0 <= k < r.len() ==> (#[trigger] r[k]) < items.len() && is_kept(items, r[k] as int)
    &&& forall|a: int, b: int|
        0 <= a < b < r.len() ==> path_lt(key_of(items[r[a] as int]), key_of(items[r[b] as int]))
    &&& forall|j: int| 0 <= j < items.len() && is_kept(items, j) ==> r.contains(j as usize)
}

/// `e` is the entry made from the walk item `w`.
pub open spec fn entry_from(e: Entry, w: Walked) -> bool {
    let f = w->Item_0;
    &&& e.path == f.path
    &&& e.name == f.name
    &&& e.directory == f.metadata->directory
    &&& e.modified == f.metadata->modified
    &&& e.searchable@ == lower(f.path@)
}

proof fn lemma_leader_is_first(items: Seq<Walked>, s: Seq<usize>, q: int)
    requires
        candidates_only(items, s),
        sorted_positions(items, s),
        forall|j: int| 0 <= j < items.len() && is_candidate(#[trigger] items[j]) ==> s.contains(j as usize),
        0 <= q < s.len(),
    ensures
        is_first(items, s[q] as int) <==> (q == 0 || key_of(items[s[q - 1] as int]) != key_of(
            items[s[q] as int],
        )),
{
    let p = s[q] as int;
    if q == 0 || key_of(items[s[q - 1] as int]) != key_of(items[p]) {
        assert forall|j: int| 0 <= j < p && is_candidate(#[trigger] items[j]) implies key_of(items[j]) != key_of(items[p]) by {
            if key_of(items[j]) == key_of(items[p]) {
                assert(s.contains(j as usize));
                let t = choose|t: int| 0 <= t < s.len() && s[t] == j as usize;
                assert(sorts_before(items, j, p));
                if t > q {
                    lemma_sorts_before_asymmetric(items, j, p);
                } else if t == q - 1 {
                } else {
                    assert(t < q - 1);
                    let m = s[q - 1] as int;
                    assert(sorts_before(items, j, m));
                    assert(sorts_before(items, m, p));
                    lemma_path_lt_asymmetric(key_of(items[j]), key_of(items[m]));
                }
            }
        }
    } else {
        let m = s[q - 1] as int;
        assert(sorts_before(items, m, p));
        lemma_path_lt_irreflexive(key_of(items[p]));
        assert(m < p);
        assert(is_candidate(items[m]));
    }
}

fn is_candidate_item(items: &Vec<Walked>, k: usize) -> (r: bool)
    requires
        k < items@.len(),
    ensures
        r == is_candidate(items@[k as int]),
{
    match &items[k] {
        Walked::Item(f) => f.depth != 0 && matches!(f.file_type, FileType::Other),
        Walked::Error => false,
    }
}

impl Snapshot {
    /// The snapshot of what a walk over `roots` reported: walk errors and unreadable
    /// items are counted as skipped; the roots themselves, items of unknown type and
    /// symlinks are left out; a path reported again (overlapping roots) is taken
    /// only once, from its first report; entries are in path order.
    pub fn scan(roots: Vec<String>, walked: Vec<Walked>) -> (r: Snapshot)
        ensures
            r.roots == roots,
            r.skipped == skipped_count(walked@, walked@.len() as int),
            exists|idx: Seq<usize>|
                {
                    &&& lists_kept(walked@, idx)
                    &&& r.entries@.len() == idx.len()
                    &&& forall|m: int|
                        0 <= m < idx.len() ==> entry_from(r.entries@[m], walked@[#[trigger] idx[m] as int])
                },
    {
        let ghost items = walked@;
        let n = walked.len();
        let mut cand: Vec<usize> = Vec::new();
        let mut k: usize = 0;
        while k < n
            invariant
                n == items.len(),
                items == walked@,
                k <= n,
                candidates_only(items, cand@),
                forall|a: int, b: int| 0 <= a < b < cand@.len() ==> cand@[a] < cand@[b],
                forall|t: int| 0 <= t < cand@.len() ==> cand@[t] < k,
                forall|j: int| 0 <= j < k && is_candidate(#[trigger] items[j]) ==> cand@.contains(j as usize),
            decreases n - k,
        {
            if is_candidate_item(&walked, k) {
                let ghost before = cand@;
                cand.push(k);
                proof {
                    assert forall|j: int| 0 <= j < k + 1 && is_candidate(#[trigger] items[j]) implies cand@.contains(j as usize) by {
                        if j < k {
                            let t = choose|t: int| 0 <= t < before.len() && before[t] == j as usize;
                            assert(cand@[t] == j);
                        } else {
                            assert(cand@[cand@.len() - 1] == j);
                        }
                    }
                }
            }
            k = k + 1;
        }
        let sorted = sort_positions(&walked, &cand, 0, cand.len());
        proof {
            assert(cand@.subrange(0, cand@.len() as int) =~= cand@);
            assert forall|j: int| 0 <= j < n && is_candidate(#[trigger] items[j]) implies sorted@.contains(j as usize) by {
                assert(cand@.to_set().contains(j as usize));
                assert(sorted@.to_set().contains(j as usize));
            }
        }
        let mut first: Vec<bool> = Vec::new();
        let mut k: usize = 0;
        while k < n
            invariant
                k <= n,
                first@.len() == k,
                forall|x: int| 0 <= x < k ==> !first@[x],
            decreases n - k,
        {
            first.push(false);
            k = k + 1;
        }
        let mut entries: Vec<Entry> = Vec::new();
        let ghost mut idx: Seq<usize> = seq![];
        let ghost mut from: Seq<int> = seq![];
        let mut q: usize = 0;
        while q < sorted.len()
            invariant
                n == items.len(),
                items == walked@,
                candidates_only(items, sorted@),
                sorted_positions(items, sorted@),
                forall|j: int| 0 <= j < items.len() && is_candidate(#[trigger] items[j]) ==> sorted@.contains(j as usize),
                q <= sorted@.len(),
                first@.len() == n,
                forall|x: int| 0 <= x < n && #[trigger] first@[x] ==> is_first(items, x),
                forall|t: int| 0 <= t < q && is_first(items, sorted@[t] as int) ==> first@[#[trigger] sorted@[t] as int],
                entries@.len() == idx.len(),
                from.len() == idx.len(),
                forall|m: int| 0 <= m < idx.len() ==> entry_from(entries@[m], items[#[trigger] idx[m] as int]),
                forall|m: int| 0 <= m < idx.len() ==> 0 <= #[trigger] from[m] < q && sorted@[from[m]] == idx[m],
                forall|m: int| 0 <= m < idx.len() ==> (#[trigger] idx[m]) < n && is_kept(items, idx[m] as int),
                forall|a: int, b: int|
                    0 <= a < b < idx.len() ==> path_lt(key_of(items[idx[a] as int]), key_of(items[idx[b] as int])),
                forall|t: int| 0 <= t < q && is_kept(items, sorted@[t] as int) ==> idx.contains(#[trigger] sorted@[t]),
            decreases sorted@.len() - q,
        {
            let p = sorted[q];
            let leader = if q == 0 {
                true
            } else {
                compare_path(item_components(&walked, sorted[q - 1]), item_components(&walked, p)) != 0
            };
            proof {
                lemma_leader_is_first(items, sorted@, q as int);
            }
            if leader {
                first.set(p, true);
                match &walked[p] {
                    Walked::Item(f) => {
                        match &f.metadata {
                            Metadata::Readable { directory, modified } => {
                                let entry = Entry::new(f.path.clone(), f.name.clone(), *directory, *modified);
                                let ghost old_idx = idx;
                                entries.push(entry);
                                proof {
                                    assert forall|a: int| 0 <= a < old_idx.len() implies path_lt(key_of(items[old_idx[a] as int]), key_of(items[p as int])) by {
                                        let t = from[a];
                                        assert(sorts_before(items, sorted@[t] as int, p as int));
                                        if !path_lt(key_of(items[old_idx[a] as int]), key_of(items[p as int])) {
                                            assert(is_candidate(items[old_idx[a] as int]));
                                        }
                                    }
                                    idx = idx.push(p);
                                    from = from.push(q as int);
                                    assert forall|t: int| 0 <= t < q + 1 && is_kept(items, sorted@[t] as int) implies idx.contains(#[trigger] sorted@[t]) by {
                                        if t < q {
                                            let m = choose|m: int| 0 <= m < old_idx.len() && old_idx[m] == sorted@[t];
                                            assert(idx[m] == sorted@[t]);
                                        } else {
                                            assert(idx[idx.len() - 1] == sorted@[t]);
                                        }
                                    }
                                }
                            },
                            Metadata::Unreadable => {},
                        }
                    },
                    Walked::Error => {},
                }
            }
            q = q + 1;
        }
        proof {
            assert forall|x: int| 0 <= x < n implies (first@[x] <==> is_first(items, x)) by {
                if is_first(items, x) {
                    assert(sorted@.contains(x as usize));
                    let t = choose|t: int| 0 <= t < sorted@.len() && sorted@[t] == x as usize;
                    assert(first@[sorted@[t] as int]);
                }
            }
            assert forall|j: int| 0 <= j < n && is_kept(items, j) implies idx.contains(j as usize) by {
                assert(sorted@.contains(j as usize));
                let t = choose|t: int| 0 <= t < sorted@.len() && sorted@[t] == j as usize;
                assert(idx.contains(sorted@[t]));
            }
            assert(lists_kept(items, idx));
        }
        let mut skipped: usize = 0;
        let mut k: usize = 0;
        while k < n
            invariant
                n == items.len(),
                items == walked@,
                k <= n,
                first@.len() == n,
                forall|x: int| 0 <= x < n ==> (first@[x] <==> is_first(items, x)),
                skipped == skipped_count(items, k as int),
                skipped <= k,
                lists_kept(items, idx),
                entries@.len() == idx.len(),
                forall|m: int| 0 <= m < idx.len() ==> entry_from(entries@[m], items[#[trigger] idx[m] as int]),
            decreases n - k,
        {
            let counted = match &walked[k] {
                Walked::Error => true,
                Walked::Item(f) => first[k] && matches!(f.metadata, Metadata::Unreadable),
            };
            if counted {
                skipped = skipped + 1;
            }
            k = k + 1;
        }
        Snapshot { entries, roots, skipped }
    }
}

} // verus!

verus! {

/// No earlier position holds the same path as position `k`.
pub open spec fn is_new_path(keys: Seq<Seq<Seq<char>>>, k: int) -> bool {
    forall|j: int| 0 <= j < k ==> keys[j] != keys[k]
}

/// `r` lists, in increasing order, the positions whose path does not occur earlier.
pub open spec fn first_paths(keys: Seq<Seq<Seq<char>>>, r: Seq<usize>) -> bool {
    &&& forall|a: int, b: int| 0 <= a < b < r.len() ==> r[a] < r[b]
    &&& forall|k: int| 0 <= k < r.len() ==> (#[trigger] r[k]) < keys.len() && is_new_path(keys, r[k] as int)
    &&& forall|k: int| 0 <= k < keys.len() && #[trigger] is_new_path(keys, k) ==> r.contains(k as usize)
}

pub open spec fn all_texts(v: Seq<Vec<Vec<char>>>) -> Seq<Seq<Seq<char>>> {
    v.map_values(|x: Vec<Vec<char>>| texts(x@))
}

fn occurs_before(keys: &Vec<Vec<Vec<char>>>, k: usize) -> (seen: bool)
    requires
        k < keys@.len(),
    ensures
        seen == !is_new_path(all_texts(keys@), k as int),
{
    let ghost ks = all_texts(keys@);
    let mut j: usize = 0;
    while j < k
        invariant
            ks == all_texts(keys@),
            j <= k < keys@.len(),
            forall|i: int| 0 <= i < j ==> ks[i] != ks[k as int],
        decreases k - j,
    {
        let c = compare_path(&keys[j], &keys[k]);
        assert(ks[j as int] == texts(keys@[j as int]@));
        assert(ks[k as int] == texts(keys@[k as int]@));
        if c == 0 {
            return true;
        }
        j = j + 1;
    }
    false
}

/// Positions of the first occurrence of each path (given as component lists).
pub fn distinct_paths(keys: &Vec<Vec<Vec<char>>>) -> (r: Vec<usize>)
    ensures
        first_paths(all_texts(keys@), r@),
{
    let ghost ks = all_texts(keys@);
    let mut r: Vec<usize> = Vec::new();
    let mut k: usize = 0;
    while k < keys.len()
        invariant
            ks == all_texts(keys@),
            k <= keys@.len(),
            forall|a: int, b: int| 0 <= a < b < r@.len() ==> r@[a] < r@[b],
            forall|t: int| 0 <= t < r@.len() ==> r@[t] < k,
            forall|t: int| 0 <= t < r@.len() ==> (#[trigger] r@[t]) < ks.len() && is_new_path(ks, r@[t] as int),
            forall|t: int| 0 <= t < k && #[trigger] is_new_path(ks, t) ==> r@.contains(t as usize),
        decreases keys@.len() - k,
    {
        let seen = occurs_before(keys, k);
        let ghost before = r@;
        if !seen {
            r.push(k);
        }
        proof {
            assert forall|t: int| 0 <= t < k + 1 && #[trigger] is_new_path(ks, t) implies r@.contains(t as usize) by {
                if t < k {
                    let m = choose|m: int| 0 <= m < before.len() && before[m] == t as usize;
                    assert(r@[m] == t);
                } else {
                    assert(r@[r@.len() - 1] == t);
                }
            }
        }
        k = k + 1;
    }
    r
}

} // verus!
