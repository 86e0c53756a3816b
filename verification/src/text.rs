//! Character-sequence helpers shared by search, the calculator and the palette.
//!
//! Strings are handled as sequences of Unicode scalar values. Whitespace is the
//! Unicode `White_Space` property, which is what `char::is_whitespace`,
//! `str::trim` and `str::split_whitespace` use.
use vstd::prelude::*;
use vstd::utf8::encode_utf8;
use vstd::utf8::encode_scalar;

verus! {

/// Unicode `White_Space` (PropList.txt): U+0009..U+000D, U+0020, U+0085, U+00A0,
/// U+1680, U+2000..U+200A, U+2028, U+2029, U+202F, U+205F and U+3000.
pub open spec fn is_space(c: char) -> bool {
    ||| ('\u{9}' <= c && c <= '\u{d}')
    ||| c == ' '
    ||| c == '\u{85}'
    ||| c == '\u{a0}'
    ||| c == '\u{1680}'
    ||| ('\u{2000}' <= c && c <= '\u{200a}')
    ||| c == '\u{2028}'
    ||| c == '\u{2029}'
    ||| c == '\u{202f}'
    ||| c == '\u{205f}'
    ||| c == '\u{3000}'
}

pub fn space(c: char) -> (r: bool)
    ensures
        r == is_space(c),
{
    ('\u{9}' <= c && c <= '\u{d}') || c == ' ' || c == '\u{85}' || c == '\u{a0}' || c == '\u{1680}'
        || ('\u{2000}' <= c && c <= '\u{200a}') || c == '\u{2028}' || c == '\u{2029}' || c
        == '\u{202f}' || c == '\u{205f}' || c == '\u{3000}'
}

/// The characters of `s`, in order.
pub fn chars_of(s: &str) -> (r: Vec<char>)
    ensures
        r@ == s@,
{
    let mut r: Vec<char> = Vec::new();
    for c in it: s.chars()
        invariant
            it.seq() == s@,
            r@ == it.seq().take(it.index() as int),
    {
        r.push(c);
    }
    r
}

/// A `String` holding exactly the given characters (`FromIterator<&char>` for `String`).
#[verifier::external_body]
pub(crate) fn string_of(chars: &[char]) -> (r: String)
    ensures
        r@ == chars@,
{
    String::from_iter(chars)
}

/// What `str::to_lowercase` returns for a string with these characters: the
/// Unicode lowercase mapping, which can change the length of the text.
pub uninterp spec fn lowercase(s: Seq<char>) -> Seq<char>;

/// Every character is ASCII.
pub open spec fn is_ascii_text(s: Seq<char>) -> bool {
    forall|i: int| 0 <= i < s.len() ==> (#[trigger] s[i] as u32) < 128
}

/// `A`..`Z` become `a`..`z`; every other character stays.
pub open spec fn ascii_lower_char(c: char) -> char {
    if 'A' <= c && c <= 'Z' {
        ((c as u32) + 32) as char
    } else {
        c
    }
}

/// `a`..`z` become `A`..`Z`; every other character stays.
pub open spec fn ascii_upper_char(c: char) -> char {
    if 'a' <= c && c <= 'z' {
        ((c as u32) - 32) as char
    } else {
        c
    }
}

pub open spec fn ascii_lower(s: Seq<char>) -> Seq<char> {
    s.map_values(|c: char| ascii_lower_char(c))
}

pub open spec fn ascii_upper(s: Seq<char>) -> Seq<char> {
    s.map_values(|c: char| ascii_upper_char(c))
}

/// The lowercase form of a text: for ASCII text, its ASCII letters lowercased;
/// otherwise the Unicode lowercase mapping.
pub open spec fn lower(s: Seq<char>) -> Seq<char> {
    if is_ascii_text(s) {
        ascii_lower(s)
    } else {
        lowercase(s)
    }
}

/// `str::to_lowercase`. The claim is that the result is the (unstated) Unicode
/// lowercase mapping of the argument's characters, and, as the documentation of
/// `str::to_lowercase` and `str::to_ascii_lowercase` gives, that on ASCII text it
/// maps `A`..`Z` to `a`..`z` and keeps every other character.
#[verifier::external_body]
pub(crate) fn str_to_lowercase(s: &str) -> (r: String)
    ensures
        r@ == lowercase(s@),
        is_ascii_text(s@) ==> r@ == ascii_lower(s@),
{
    s.to_lowercase()
}

/// The lowercase form of the given characters.
pub fn to_lowercase(s: &[char]) -> (r: Vec<char>)
    ensures
        r@ == lower(s@),
{
    let text = string_of(s);
    let lower = str_to_lowercase(text.as_str());
    chars_of(lower.as_str())
}

/// Lowercasing an ASCII text with its letters uppercased gives the same text as
/// lowercasing it directly.
pub proof fn lemma_lower_ignores_ascii_case(s: Seq<char>)
    requires
        is_ascii_text(s),
    ensures
        is_ascii_text(ascii_upper(s)),
        lower(ascii_upper(s)) == lower(s),
{
    assert forall|i: int| 0 <= i < ascii_upper(s).len() implies (#[trigger] ascii_upper(s)[i] as u32)
        < 128 by {
        assert((s[i] as u32) < 128);
    }
    assert(ascii_lower(ascii_upper(s)) =~= ascii_lower(s));
}

proof fn lemma_utf8_len_skip(s: Seq<char>, i: int)
    requires
        0 <= i <= s.len(),
    ensures
        encode_utf8(s.skip(i)).len() <= encode_utf8(s).len(),
        encode_utf8(s).len() >= s.len(),
    decreases s.len(),
{
    if s.len() > 0 {
        vstd::utf8::char_is_scalar(s[0]);
        if i > 0 {
            assert(s.drop_first().skip(i - 1) =~= s.skip(i));
        } else {
            assert(s.skip(0) =~= s);
        }
        lemma_utf8_len_skip(s.drop_first(), if i > 0 { i - 1 } else { 0 });
    } else {
        assert(s.skip(i) =~= s);
    }
}

/// Whether the UTF-8 encoding (whose length `str::len` returns) is longer than `limit` bytes.
pub fn utf8_longer_than(s: &[char], limit: usize) -> (r: bool)
    ensures
        r == (encode_utf8(s@).len() > limit),
{
    let mut n: usize = 0;
    let mut i: usize = s.len();
    while i > 0
        invariant
            i <= s@.len(),
            n == encode_utf8(s@.skip(i as int)).len(),
            n <= limit,
        decreases i,
    {
        i = i - 1;
        let c = s[i];
        let ghost t = s@.skip(i as int);
        assert(t.drop_first() =~= s@.skip(i + 1));
        assert(t[0] == c);
        let w: usize = if (c as u32) < 0x80 {
            1
        } else if (c as u32) < 0x800 {
            2
        } else if (c as u32) < 0x10000 {
            3
        } else {
            4
        };
        proof {
            vstd::utf8::char_is_scalar(c);
            assert(encode_scalar(c as u32).len() == w);
        }
        if w > limit - n {
            proof {
                lemma_utf8_len_skip(s@, i as int);
            }
            return true;
        }
        n = n + w;
    }
    assert(s@.skip(0) =~= s@);
    false
}

/// Count of leading whitespace characters.
pub open spec fn leading_spaces(s: Seq<char>) -> nat
    decreases s.len(),
{
    if s.len() > 0 && is_space(s[0]) {
        1 + leading_spaces(s.drop_first())
    } else {
        0
    }
}

/// Count of trailing whitespace characters.
pub open spec fn trailing_spaces(s: Seq<char>) -> nat
    decreases s.len(),
{
    if s.len() > 0 && is_space(s.last()) {
        1 + trailing_spaces(s.drop_last())
    } else {
        0
    }
}

/// `s` without leading and trailing whitespace (what `str::trim` returns).
pub open spec fn trim(s: Seq<char>) -> Seq<char> {
    let t = s.skip(leading_spaces(s) as int);
    t.take(t.len() - trailing_spaces(t))
}

proof fn lemma_leading_spaces(s: Seq<char>, i: int)
    requires
        0 <= i <= s.len(),
        forall|k: int| 0 <= k < i ==> is_space(s[k]),
        i == s.len() || !is_space(s[i]),
    ensures
        leading_spaces(s) == i,
    decreases i,
{
    if i > 0 {
        let t = s.drop_first();
        assert forall|k: int| 0 <= k < i - 1 implies is_space(t[k]) by {
            assert(t[k] == s[k + 1]);
        }
        if i - 1 < t.len() {
            assert(t[i - 1] == s[i]);
        }
        lemma_leading_spaces(t, i - 1);
    }
}

proof fn lemma_trailing_spaces(s: Seq<char>, i: int)
    requires
        0 <= i <= s.len(),
        forall|k: int| i <= k < s.len() ==> is_space(s[k]),
        i == 0 || !is_space(s[i - 1]),
    ensures
        trailing_spaces(s) == s.len() - i,
    decreases s.len() - i,
{
    if i < s.len() {
        let t = s.drop_last();
        assert forall|k: int| i <= k < t.len() implies is_space(t[k]) by {
            assert(t[k] == s[k]);
        }
        if i > 0 {
            assert(t[i - 1] == s[i - 1]);
        }
        lemma_trailing_spaces(t, i);
    }
}

pub(crate) proof fn lemma_leading_spaces_props(s: Seq<char>)
    ensures
        leading_spaces(s) <= s.len(),
        forall|k: int| 0 <= k < leading_spaces(s) ==> is_space(#[trigger] s[k]),
        leading_spaces(s) < s.len() ==> !is_space(s[leading_spaces(s) as int]),
    decreases s.len(),
{
    if s.len() > 0 && is_space(s[0]) {
        let t = s.drop_first();
        lemma_leading_spaces_props(t);
        assert forall|k: int| 0 <= k < leading_spaces(s) implies is_space(#[trigger] s[k]) by {
            if k > 0 {
                assert(s[k] == t[k - 1]);
            }
        }
        if leading_spaces(s) < s.len() {
            assert(s[leading_spaces(s) as int] == t[leading_spaces(t) as int]);
        }
    }
}

pub(crate) proof fn lemma_trailing_spaces_props(s: Seq<char>)
    ensures
        trailing_spaces(s) <= s.len(),
        forall|k: int| s.len() - trailing_spaces(s) <= k < s.len() ==> is_space(#[trigger] s[k]),
        trailing_spaces(s) < s.len() ==> !is_space(s[s.len() - trailing_spaces(s) - 1]),
    decreases s.len(),
{
    if s.len() > 0 && is_space(s.last()) {
        let t = s.drop_last();
        lemma_trailing_spaces_props(t);
        assert forall|k: int| s.len() - trailing_spaces(s) <= k < s.len() implies is_space(
            #[trigger] s[k],
        ) by {
            if k < s.len() - 1 {
                assert(s[k] == t[k]);
            }
        }
        if trailing_spaces(s) < s.len() {
            assert(s[s.len() - trailing_spaces(s) - 1] == t[t.len() - trailing_spaces(t) - 1]);
        }
    }
}

/// `trim` is the part between the whitespace on either side: when whitespace
/// fills `s` before `a` and from `b` on, and `s[a..b]` is empty or starts and
/// ends with a non-space, `trim(s)` is `s[a..b]`.
proof fn lemma_trim_between(s: Seq<char>, a: int, b: int)
    requires
        0 <= a <= b <= s.len(),
        forall|k: int| 0 <= k < a ==> is_space(#[trigger] s[k]),
        forall|k: int| b <= k < s.len() ==> is_space(#[trigger] s[k]),
        a < b ==> !is_space(s[a]) && !is_space(s[b - 1]),
    ensures
        trim(s) == s.subrange(a, b),
{
    if a < b {
        lemma_leading_spaces(s, a);
        let t = s.skip(a);
        assert forall|k: int| b - a <= k < t.len() implies is_space(t[k]) by {
            assert(t[k] == s[k + a]);
        }
        assert(t[b - a - 1] == s[b - 1]);
        lemma_trailing_spaces(t, b - a);
        assert(t.take(t.len() - trailing_spaces(t)) =~= s.subrange(a, b));
    } else {
        assert forall|k: int| 0 <= k < s.len() implies is_space(s[k]) by {
            if k < a {
                assert(is_space(s[k]));
            } else {
                assert(is_space(s[k]));
            }
        }
        lemma_leading_spaces(s, s.len() as int);
        assert(trim(s) =~= s.subrange(a, b));
    }
}

/// Padding with whitespace and uppercasing ASCII letters leave the trimmed text
/// equal to the trimmed original with its letters uppercased.
pub proof fn lemma_trim_padded_upper(q: Seq<char>, before: Seq<char>, after: Seq<char>)
    requires
        forall|i: int| 0 <= i < before.len() ==> is_space(#[trigger] before[i]),
        forall|i: int| 0 <= i < after.len() ==> is_space(#[trigger] after[i]),
    ensures
        trim(before + ascii_upper(q) + after) == ascii_upper(trim(q)),
{
    lemma_leading_spaces_props(q);
    let l = leading_spaces(q) as int;
    let t = q.skip(l);
    lemma_trailing_spaces_props(t);
    let b = l + t.len() - trailing_spaces(t);
    let x = before + ascii_upper(q) + after;
    let p = before.len() as int;
    assert forall|k: int| 0 <= k < x.len() implies #[trigger] is_space(x[k]) == (if k < p || k >= p
        + q.len() { true } else { is_space(q[k - p]) }) by {
        if k < p {
            assert(x[k] == before[k]);
        } else if k < p + q.len() {
            assert(x[k] == ascii_upper_char(q[k - p]));
        } else {
            assert(x[k] == after[k - p - q.len()]);
        }
    }
    assert forall|k: int| 0 <= k < p + l implies is_space(#[trigger] x[k]) by {
        if k >= p {
            assert(is_space(q[k - p]));
        }
    }
    assert forall|k: int| p + b <= k < x.len() implies is_space(#[trigger] x[k]) by {
        if k < p + q.len() {
            assert(t[k - p - l] == q[k - p]);
            assert(is_space(t[k - p - l]));
        }
    }
    if l < b {
        assert(t[b - l - 1] == q[b - 1]);
        assert(is_space(x[p + l]) == is_space(q[l]));
        assert(is_space(x[p + b - 1]) == is_space(q[b - 1]));
    }
    lemma_trim_between(x, p + l, p + b);
    assert(trim(q) =~= q.subrange(l, b));
    assert(x.subrange(p + l, p + b) =~= ascii_upper(trim(q)));
}

/// Positions `(start, end)` such that `s[start..end]` is `trim(s)`.
pub fn trim_bounds(s: &[char]) -> (r: (usize, usize))
    ensures
        r.0 <= r.1 <= s@.len(),
        s@.subrange(r.0 as int, r.1 as int) == trim(s@),
        r.0 == leading_spaces(s@),
{
    let n = s.len();
    let mut a: usize = 0;
    while a < n && space(s[a])
        invariant
            a <= n == s@.len(),
            forall|k: int| 0 <= k < a ==> is_space(s@[k]),
        decreases n - a,
    {
        a = a + 1;
    }
    proof {
        lemma_leading_spaces(s@, a as int);
    }
    let mut b: usize = n;
    while b > a && space(s[b - 1])
        invariant
            a <= b <= n == s@.len(),
            forall|k: int| b <= k < n ==> is_space(s@[k]),
        decreases b,
    {
        b = b - 1;
    }
    proof {
        let t = s@.skip(a as int);
        assert forall|k: int| b - a <= k < t.len() implies is_space(t[k]) by {
            assert(t[k] == s@[k + a]);
        }
        if b > a {
            assert(t[b - a - 1] == s@[b - 1]);
        }
        lemma_trailing_spaces(t, b - a);
        assert(t.take(t.len() - trailing_spaces(t)) =~= s@.subrange(a as int, b as int));
    }
    (a, b)
}

/// The characters of `s` without leading and trailing whitespace.
pub fn trimmed(s: &[char]) -> (r: Vec<char>)
    ensures
        r@ == trim(s@),
{
    let (a, b) = trim_bounds(s);
    slice_range(s, a, b)
}

/// A copy of `s[a..b]`.
pub fn slice_range(s: &[char], a: usize, b: usize) -> (r: Vec<char>)
    requires
        a <= b <= s@.len(),
    ensures
        r@ == s@.subrange(a as int, b as int),
{
    let mut r: Vec<char> = Vec::new();
    let mut i = a;
    while i < b
        invariant
            a <= i <= b <= s@.len(),
            r@ == s@.subrange(a as int, i as int),
        decreases b - i,
    {
        r.push(s[i]);
        assert(r@ =~= s@.subrange(a as int, i + 1));
        i = i + 1;
    }
    r
}

/// The whitespace-separated words of `s`, in order (what `str::split_whitespace`
/// yields): each maximal run of non-whitespace characters.
pub open spec fn words(s: Seq<char>) -> Seq<Seq<char>>
    decreases s.len(),
{
    if s.len() == 0 {
        seq![]
    } else {
        let p = s.drop_last();
        let c = s.last();
        let w = words(p);
        if is_space(c) {
            w
        } else if p.len() > 0 && !is_space(p.last()) {
            w.update(w.len() - 1, w.last().push(c))
        } else {
            w.push(seq![c])
        }
    }
}

proof fn lemma_words_nonempty(s: Seq<char>)
    requires
        s.len() > 0,
        !is_space(s.last()),
    ensures
        words(s).len() > 0,
    decreases s.len(),
{
    let p = s.drop_last();
    if p.len() > 0 && !is_space(p.last()) {
        lemma_words_nonempty(p);
    }
}

/// The whitespace-separated words of `s`.
pub fn split_words(s: &[char]) -> (r: Vec<Vec<char>>)
    ensures
        texts(r@) == words(s@),
{
    let mut r: Vec<Vec<char>> = Vec::new();
    let n = s.len();
    let mut i: usize = 0;
    while i < n
        invariant
            i <= n == s@.len(),
            texts(r@) == words(s@.take(i as int)),
        decreases n - i,
    {
        let c = s[i];
        let ghost p = s@.take(i as int);
        let ghost q = s@.take(i + 1);
        assert(q.drop_last() =~= p);
        if space(c) {
        } else if i > 0 && !space(s[i - 1]) {
            proof {
                assert(p.last() == s@[i - 1]);
                lemma_words_nonempty(p);
            }
            let mut last = r.pop().unwrap();
            last.push(c);
            r.push(last);
            assert(texts(r@) =~= words(q));
        } else {
            let mut w: Vec<char> = Vec::new();
            w.push(c);
            r.push(w);
            assert(texts(r@) =~= words(q));
        }
        i = i + 1;
    }
    assert(s@.take(n as int) =~= s@);
    r
}

/// The texts held by a sequence of character vectors.
pub open spec fn texts(v: Seq<Vec<char>>) -> Seq<Seq<char>> {
    v.map_values(|x: Vec<char>| x@)
}

/// `s` cut at every `'\n'`; there is always at least one piece.
pub open spec fn split_newlines(s: Seq<char>) -> Seq<Seq<char>>
    decreases s.len(),
{
    if s.len() == 0 {
        seq![seq![]]
    } else {
        let w = split_newlines(s.drop_last());
        if s.last() == '\n' {
            w.push(seq![])
        } else {
            w.update(w.len() - 1, w.last().push(s.last()))
        }
    }
}

proof fn lemma_split_newlines_nonempty(s: Seq<char>)
    ensures
        split_newlines(s).len() > 0,
    decreases s.len(),
{
    if s.len() > 0 {
        lemma_split_newlines_nonempty(s.drop_last());
    }
}

/// Pieces of `s` between newlines.
pub fn split_lines(s: &[char]) -> (r: Vec<Vec<char>>)
    ensures
        texts(r@) == split_newlines(s@),
{
    let mut r: Vec<Vec<char>> = Vec::new();
    r.push(Vec::new());
    assert(texts(r@) =~= split_newlines(s@.take(0)));
    let n = s.len();
    let mut i: usize = 0;
    while i < n
        invariant
            i <= n == s@.len(),
            texts(r@) == split_newlines(s@.take(i as int)),
        decreases n - i,
    {
        let c = s[i];
        let ghost q = s@.take(i + 1);
        assert(q.drop_last() =~= s@.take(i as int));
        proof {
            lemma_split_newlines_nonempty(s@.take(i as int));
        }
        if c == '\n' {
            r.push(Vec::new());
        } else {
            let mut last = r.pop().unwrap();
            last.push(c);
            r.push(last);
        }
        assert(texts(r@) =~= split_newlines(q));
        i = i + 1;
    }
    assert(s@.take(n as int) =~= s@);
    r
}

/// `n` is a prefix of `h`.
pub open spec fn is_prefix(n: Seq<char>, h: Seq<char>) -> bool {
    n.len() <= h.len() && h.take(n.len() as int) == n
}

/// `n` occurs in `h` starting at position `k`.
pub open spec fn occurs_at(h: Seq<char>, n: Seq<char>, k: int) -> bool {
    0 <= k && k + n.len() <= h.len() && h.subrange(k, k + n.len()) == n
}

/// `n` occurs as a contiguous piece of `h`.
pub open spec fn contains(h: Seq<char>, n: Seq<char>) -> bool {
    exists|k: int| occurs_at(h, n, k)
}

/// `n` is obtained from `h` by deleting characters (an order-preserving embedding).
pub open spec fn embeds(h: Seq<char>, n: Seq<char>) -> bool {
    exists|f: Seq<int>| is_embedding(h, n, f)
}

pub open spec fn is_embedding(h: Seq<char>, n: Seq<char>, f: Seq<int>) -> bool {
    &&& f.len() == n.len()
    &&& forall|i: int| 0 <= i < f.len() ==> 0 <= #[trigger] f[i] < h.len() && h[f[i]] == n[i]
    &&& forall|i: int, j: int| 0 <= i < j < f.len() ==> f[i] < f[j]
}

/// `h[k..k + n.len()]` equals `n`.
pub fn matches_at(h: &[char], n: &[char], k: usize) -> (r: bool)
    requires
        k + n@.len() <= h@.len(),
    ensures
        r == occurs_at(h@, n@, k as int),
{
    let hl = h.len();
    let mut i: usize = 0;
    while i < n.len()
        invariant
            hl == h@.len(),
            k + n@.len() <= h@.len(),
            i <= n@.len(),
            forall|j: int| 0 <= j < i ==> h@[k + j] == n@[j],
        decreases n@.len() - i,
    {
        if h[k + i] != n[i] {
            assert(h@.subrange(k as int, k + n@.len())[i as int] != n@[i as int]);
            return false;
        }
        i = i + 1;
    }
    assert(h@.subrange(k as int, k + n@.len()) =~= n@);
    true
}

pub fn starts_with(h: &[char], n: &[char]) -> (r: bool)
    ensures
        r == is_prefix(n@, h@),
{
    if n.len() > h.len() {
        return false;
    }
    let r = matches_at(h, n, 0);
    assert(h@.subrange(0, n@.len() as int) =~= h@.take(n@.len() as int));
    r
}

pub fn contains_chars(h: &[char], n: &[char]) -> (r: bool)
    ensures
        r == contains(h@, n@),
{
    if n.len() > h.len() {
        return false;
    }
    let last = h.len() - n.len();
    let mut k: usize = 0;
    loop
        invariant
            last + n@.len() == h@.len(),
            k <= last,
            forall|j: int| 0 <= j < k ==> !occurs_at(h@, n@, j),
        decreases last - k,
    {
        if matches_at(h, n, k) {
            return true;
        }
        if k == last {
            assert forall|j: int| !occurs_at(h@, n@, j) by {
                if j > last {
                }
            }
            return false;
        }
        k = k + 1;
    }
}

/// Greedy scan: is `n` embedded in `h`?
pub fn subsequence(h: &[char], n: &[char]) -> (r: bool)
    ensures
        r == embeds(h@, n@),
{
    let ghost f: Seq<int> = choose|f: Seq<int>| is_embedding(h@, n@, f);
    let ghost g: Seq<int> = seq![];
    let mut j: usize = 0;
    let mut i: usize = 0;
    while i < h.len() && j < n.len()
        invariant
            i <= h@.len(),
            j <= n@.len(),
            g.len() == j,
            forall|k: int| 0 <= k < g.len() ==> 0 <= #[trigger] g[k] < i && h@[g[k]] == n@[k],
            forall|a: int, b: int| 0 <= a < b < g.len() ==> g[a] < g[b],
            is_embedding(h@, n@, f) ==> forall|k: int| 0 <= k < n@.len() && f[k] < i ==> k < j,
        decreases h@.len() - i,
    {
        let ghost j0 = j;
        if h[i] == n[j] {
            proof {
                g = g.push(i as int);
            }
            j = j + 1;
        }
        proof {
            if is_embedding(h@, n@, f) {
                assert forall|k: int| 0 <= k < n@.len() && f[k] < i + 1 implies k < j by {
                    if f[k] == i {
                        if k > 0 {
                            assert(f[k - 1] < f[k]);
                        }
                        assert(h@[f[k]] == n@[k]);
                    }
                }
            }
        }
        i = i + 1;
    }
    if j == n.len() {
        assert(is_embedding(h@, n@, g));
        true
    } else {
        proof {
            if embeds(h@, n@) {
                assert(is_embedding(h@, n@, f));
                assert(f[j as int] < h@.len());
            }
        }
        false
    }
}

/// `a` and `b` hold the same characters.
pub fn same_chars(a: &[char], b: &[char]) -> (r: bool)
    ensures
        r == (a@ == b@),
{
    if a.len() != b.len() {
        return false;
    }
    let r = matches_at(a, b, 0);
    assert(a@.subrange(0, b@.len() as int) =~= a@);
    r
}

/// `a` holds the characters of the text `lit`.
pub fn is_text(a: &[char], lit: &str) -> (r: bool)
    ensures
        r == (a@ == lit@),
{
    let l = chars_of(lit);
    same_chars(a, l.as_slice())
}

/// The pieces of `parts` with `sep` between consecutive ones.
pub open spec fn join(parts: Seq<Seq<char>>, sep: Seq<char>) -> Seq<char>
    decreases parts.len(),
{
    if parts.len() == 0 {
        seq![]
    } else if parts.len() == 1 {
        parts[0]
    } else {
        join(parts.drop_last(), sep) + sep + parts.last()
    }
}

pub fn append(v: &mut Vec<char>, s: &[char])
    ensures
        final(v)@ == old(v)@ + s@,
{
    let mut i: usize = 0;
    while i < s.len()
        invariant
            i <= s@.len(),
            v@ == old(v)@ + s@.take(i as int),
        decreases s@.len() - i,
    {
        v.push(s[i]);
        assert(v@ =~= old(v)@ + s@.take(i + 1));
        i = i + 1;
    }
    assert(s@.take(s@.len() as int) =~= s@);
}

pub fn join_chars(parts: &Vec<Vec<char>>, sep: &[char]) -> (r: Vec<char>)
    ensures
        r@ == join(texts(parts@), sep@),
{
    let mut r: Vec<char> = Vec::new();
    let mut i: usize = 0;
    while i < parts.len()
        invariant
            i <= parts@.len(),
            r@ == join(texts(parts@).take(i as int), sep@),
        decreases parts@.len() - i,
    {
        let ghost t = texts(parts@).take(i + 1);
        assert(t.drop_last() =~= texts(parts@).take(i as int));
        if i > 0 {
            append(&mut r, sep);
        }
        append(&mut r, parts[i].as_slice());
        assert(r@ =~= join(t, sep@));
        i = i + 1;
    }
    assert(texts(parts@).take(parts@.len() as int) =~= texts(parts@));
    r
}

/// The decimal digits of `n`.
pub open spec fn decimal(n: nat) -> Seq<char>
    decreases n,
{
    if n < 10 {
        seq![digit(n)]
    } else {
        decimal(n / 10).push(digit(n % 10))
    }
}

pub open spec fn digit(d: nat) -> char {
    if d == 0 { '0' }
    else if d == 1 { '1' }
    else if d == 2 { '2' }
    else if d == 3 { '3' }
    else if d == 4 { '4' }
    else if d == 5 { '5' }
    else if d == 6 { '6' }
    else if d == 7 { '7' }
    else if d == 8 { '8' }
    else { '9' }
}

fn digit_char(d: u32) -> (c: char)
    requires
        d < 10,
    ensures
        c == digit(d as nat),
{
    if d == 0 { '0' }
    else if d == 1 { '1' }
    else if d == 2 { '2' }
    else if d == 3 { '3' }
    else if d == 4 { '4' }
    else if d == 5 { '5' }
    else if d == 6 { '6' }
    else if d == 7 { '7' }
    else if d == 8 { '8' }
    else { '9' }
}

/// Decimal representation of `n`, as `format!("{n}")` writes it.
pub fn decimal_chars(n: u32) -> (r: Vec<char>)
    ensures
        r@ == decimal(n as nat),
    decreases n,
{
    if n < 10 {
        let mut r: Vec<char> = Vec::new();
        r.push(digit_char(n));
        assert(r@ =~= decimal(n as nat));
        r
    } else {
        let mut r = decimal_chars(n / 10);
        r.push(digit_char(n % 10));
        r
    }
}

} // verus!
