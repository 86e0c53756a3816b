//! Recovering a transparent icon from two renderings of it, one over a black
//! and one over a white background (BGRA pixels in, RGBA pixels out).
use vstd::prelude::*;

use crate::scan::compare_path;
use crate::schedule::copy_path;
use crate::text::texts;

verus! {

/// Opacity of a pixel: 255 minus how much brighter the white rendering is.
pub open spec fn alpha_of(black: u8, white: u8) -> int {
    255 - (if white > black { white - black } else { 0 })
}

/// A colour channel un-premultiplied by `alpha`, capped at 255 (0 when transparent).
pub open spec fn channel_of(value: u8, alpha: int) -> int {
    if alpha == 0 {
        0
    } else {
        let c = (value * 255) / alpha;
        if c > 255 { 255 } else { c }
    }
}

/// `out` holds, for each whole pixel present in both renderings, the red, green,
/// blue and alpha bytes recovered from the blue-green-red-alpha inputs.
pub open spec fn is_unblended(black: Seq<u8>, white: Seq<u8>, out: Seq<u8>) -> bool {
    let n = if black.len() < white.len() { black.len() / 4 } else { white.len() / 4 };
    &&& out.len() == 4 * n
    &&& forall|p: int|
        #![trigger out[4 * p]]
        0 <= p < n ==> {
            let a = alpha_of(black[4 * p], white[4 * p]);
            &&& out[4 * p] == channel_of(black[4 * p + 2], a)
            &&& out[4 * p + 1] == channel_of(black[4 * p + 1], a)
            &&& out[4 * p + 2] == channel_of(black[4 * p], a)
            &&& out[4 * p + 3] == a
        }
}

fn channel(value: u8, alpha: u16) -> (r: u8)
    requires
        alpha <= 255,
    ensures
        r == channel_of(value, alpha as int),
{
    if alpha == 0 {
        return 0;
    }
    let scaled: u16 = (value as u16) * 255;
    let c = scaled / alpha;
    if c > 255 {
        255
    } else {
        c as u8
    }
}

/// Combine the black-background and white-background renderings.
pub fn unblend(black: &[u8], white: &[u8]) -> (r: Vec<u8>)
    ensures
        is_unblended(black@, white@, r@),
{
    let bl = black.len();
    let wl = white.len();
    let n = if bl < wl { bl / 4 } else { wl / 4 };
    assert(4 * n <= bl && 4 * n <= wl) by (nonlinear_arith)
        requires
            n == (if bl < wl { bl / 4 } else { wl / 4 }),
    ;
    let mut out: Vec<u8> = Vec::new();
    let mut p: usize = 0;
    while p < n
        invariant
            n == (if black@.len() < white@.len() { black@.len() / 4 } else { white@.len() / 4 }),
            p <= n,
            bl == black@.len(),
            wl == white@.len(),
            4 * n <= bl,
            4 * n <= wl,
            out@.len() == 4 * p,
            forall|q: int|
                #![trigger out@[4 * q]]
                0 <= q < p ==> {
                    let a = alpha_of(black@[4 * q], white@[4 * q]);
                    &&& out@[4 * q] == channel_of(black@[4 * q + 2], a)
                    &&& out@[4 * q + 1] == channel_of(black@[4 * q + 1], a)
                    &&& out@[4 * q + 2] == channel_of(black@[4 * q], a)
                    &&& out@[4 * q + 3] == a
                },
        decreases n - p,
    {
        let i = 4 * p;
        let b0 = black[i];
        let w0 = white[i];
        let alpha: u16 = 255 - (if w0 > b0 { (w0 - b0) as u16 } else { 0 });
        let ghost before = out@;
        out.push(channel(black[i + 2], alpha));
        out.push(channel(black[i + 1], alpha));
        out.push(channel(black[i], alpha));
        out.push(alpha as u8);
        proof {
            assert forall|q: int|
                #![trigger out@[4 * q]]
                0 <= q < p + 1 implies {
                    let a = alpha_of(black@[4 * q], white@[4 * q]);
                    &&& out@[4 * q] == channel_of(black@[4 * q + 2], a)
                    &&& out@[4 * q + 1] == channel_of(black@[4 * q + 1], a)
                    &&& out@[4 * q + 2] == channel_of(black@[4 * q], a)
                    &&& out@[4 * q + 3] == a
                } by {
                if q < p {
                    assert(out@[4 * q] == before[4 * q]);
                    assert(out@[4 * q + 1] == before[4 * q + 1]);
                    assert(out@[4 * q + 2] == before[4 * q + 2]);
                    assert(out@[4 * q + 3] == before[4 * q + 3]);
                }
            }
        }
        p = p + 1;
    }
    out
}

/// Most icons kept; a request for another one first empties the cache.
pub const ICON_CACHE_LIMIT: usize = 512;

/// What is known of a path's icon.
#[derive(Clone, Copy, Debug, PartialEq, Eq, Structural)]
pub enum IconState {
    /// Requested from the icon worker, no answer yet.
    Pending,
    /// The worker returned an image.
    Loaded,
    /// The worker found no icon.
    Missing,
}

/// The icons asked for, by path (its components, as the walk reports them), with
/// what is known of each; two spellings of one path share an entry.
pub struct IconCache {
    entries: Vec<(Vec<Vec<char>>, IconState)>,
}

/// What to do for a path the interface wants an icon for.
#[derive(Debug, PartialEq, Eq, Structural)]
pub enum IconLookup {
    /// The path is known; its state.
    Known(IconState),
    /// Unknown path: ask the worker for it (dropping every texture first when
    /// `cleared`), and record it with `queued` if the request could be queued.
    Request { cleared: bool },
}

pub open spec fn entry_view(e: (Vec<Vec<char>>, IconState)) -> (Seq<Seq<char>>, IconState) {
    (texts(e.0@), e.1)
}

pub open spec fn has_key(v: Seq<(Seq<Seq<char>>, IconState)>, k: Seq<Seq<char>>) -> bool {
    exists|i: int| 0 <= i < v.len() && (#[trigger] v[i]).0 == k
}

pub open spec fn keys_unique(v: Seq<(Seq<Seq<char>>, IconState)>) -> bool {
    forall|i: int, j: int| 0 <= i < j < v.len() ==> (#[trigger] v[i]).0 != (#[trigger] v[j]).0
}

/// The state recorded for `k`, if any.
pub open spec fn state_of(v: Seq<(Seq<Seq<char>>, IconState)>, k: Seq<Seq<char>>) -> Option<IconState> {
    if has_key(v, k) {
        Some(v[choose|i: int| 0 <= i < v.len() && (#[trigger] v[i]).0 == k].1)
    } else {
        None
    }
}

proof fn lemma_state_at(v: Seq<(Seq<Seq<char>>, IconState)>, k: Seq<Seq<char>>, i: int)
    requires
        keys_unique(v),
        0 <= i < v.len(),
        v[i].0 == k,
    ensures
        state_of(v, k) == Some(v[i].1),
{
    let j = choose|j: int| 0 <= j < v.len() && (#[trigger] v[j]).0 == k;
    if j != i {
        if j < i {
            assert(v[j].0 != v[i].0);
        } else {
            assert(v[i].0 != v[j].0);
        }
    }
}

impl View for IconCache {
    type V = Seq<(Seq<Seq<char>>, IconState)>;

    closed spec fn view(&self) -> Seq<(Seq<Seq<char>>, IconState)> {
        self.entries@.map_values(|e: (Vec<Vec<char>>, IconState)| entry_view(e))
    }
}

impl IconCache {
    /// No path is recorded twice.
    pub open spec fn wf(&self) -> bool {
        keys_unique(self@)
    }

    pub fn new() -> (r: IconCache)
        ensures
            r.wf(),
            r@ == Seq::<(Seq<Seq<char>>, IconState)>::empty(),
    {
        let r = IconCache { entries: Vec::new() };
        assert(r@ =~= Seq::<(Seq<Seq<char>>, IconState)>::empty());
        r
    }

    fn find(&self, key: &Vec<Vec<char>>) -> (r: Option<usize>)
        ensures
            match r {
                Some(i) => i < self@.len() && self@[i as int].0 == texts(key@),
                None => !has_key(self@, texts(key@)),
            },
    {
        let mut i: usize = 0;
        while i < self.entries.len()
            invariant
                i <= self@.len() == self.entries@.len(),
                forall|j: int| 0 <= j < i ==> (#[trigger] self@[j]).0 != texts(key@),
            decreases self@.len() - i,
        {
            assert(self@[i as int] == entry_view(self.entries@[i as int]));
            if compare_path(&self.entries[i].0, key) == 0 {
                return Some(i);
            }
            i = i + 1;
        }
        None
    }

    /// What is recorded for `key`.
    pub fn state(&self, key: &Vec<Vec<char>>) -> (r: Option<IconState>)
        requires
            self.wf(),
        ensures
            r == state_of(self@, texts(key@)),
    {
        match self.find(key) {
            Some(i) => {
                proof {
                    lemma_state_at(self@, texts(key@), i as int);
                }
                Some(self.entries[i].1)
            },
            None => None,
        }
    }

    /// The worker answered for `key`. The answer is kept only when the path is
    /// still recorded (it may have been dropped while the request was pending).
    pub fn receive(&mut self, key: &Vec<Vec<char>>, loaded: bool) -> (kept: bool)
        requires
            old(self).wf(),
        ensures
            final(self).wf(),
            kept == has_key(old(self)@, texts(key@)),
            kept ==> final(self)@.len() == old(self)@.len() && state_of(final(self)@, texts(key@)) == Some(
                if loaded { IconState::Loaded } else { IconState::Missing },
            ) && forall|k: Seq<Seq<char>>| k != texts(key@) ==> state_of(final(self)@, k) == state_of(old(self)@, k),
            !kept ==> final(self)@ == old(self)@,
    {
        match self.find(key) {
            Some(i) => {
                let ghost before = self@;
                let state = if loaded { IconState::Loaded } else { IconState::Missing };
                let stored = copy_path(key);
                self.entries.set(i, (stored, state));
                let ghost after = self@;
                assert(after =~= before.update(i as int, (texts(key@), state)));
                assert(keys_unique(after)) by {
                    assert forall|a: int, b: int| 0 <= a < b < after.len() implies (#[trigger] after[a]).0
                        != (#[trigger] after[b]).0 by {
                        assert(before[a].0 != before[b].0);
                    }
                }
                proof {
                    lemma_state_at(after, texts(key@), i as int);
                    assert forall|x: Seq<Seq<char>>| x != texts(key@) implies state_of(after, x) == state_of(before, x) by {
                        if has_key(before, x) {
                            let j = choose|j: int| 0 <= j < before.len() && (#[trigger] before[j]).0 == x;
                            lemma_state_at(before, x, j);
                            lemma_state_at(after, x, j);
                        } else {
                            assert(!has_key(after, x)) by {
                                if has_key(after, x) {
                                    let j = choose|j: int| 0 <= j < after.len() && (#[trigger] after[j]).0 == x;
                                    assert(before[j].0 == x);
                                }
                            }
                        }
                    }
                }
                true
            },
            None => false,
        }
    }

    /// The interface wants the icon of `key`. An unknown path is to be requested;
    /// when the cache already holds `ICON_CACHE_LIMIT` paths it is emptied first.
    pub fn lookup(&mut self, key: &Vec<Vec<char>>) -> (r: IconLookup)
        requires
            old(self).wf(),
        ensures
            final(self).wf(),
            has_key(old(self)@, texts(key@)) ==> r == IconLookup::Known(state_of(old(self)@, texts(key@))->0)
                && final(self)@ == old(self)@,
            !has_key(old(self)@, texts(key@)) ==> r == (IconLookup::Request {
                cleared: old(self)@.len() >= ICON_CACHE_LIMIT,
            }),
            !has_key(old(self)@, texts(key@)) && old(self)@.len() >= ICON_CACHE_LIMIT ==> final(self)@.len() == 0,
            !has_key(old(self)@, texts(key@)) && old(self)@.len() < ICON_CACHE_LIMIT ==> final(self)@ == old(self)@,
    {
        match self.state(key) {
            Some(state) => IconLookup::Known(state),
            None => {
                if self.entries.len() >= ICON_CACHE_LIMIT {
                    self.entries.clear();
                    assert(self@ =~= Seq::<(Seq<Seq<char>>, IconState)>::empty());
                    IconLookup::Request { cleared: true }
                } else {
                    IconLookup::Request { cleared: false }
                }
            },
        }
    }

    /// The request for `key` was queued: it is recorded as pending.
    pub fn queued(&mut self, key: Vec<Vec<char>>)
        requires
            old(self).wf(),
            !has_key(old(self)@, texts(key@)),
        ensures
            final(self).wf(),
            final(self)@ == old(self)@.push((texts(key@), IconState::Pending)),
    {
        let ghost before = self@;
        let ghost k = texts(key@);
        self.entries.push((key, IconState::Pending));
        assert(self@ =~= before.push((k, IconState::Pending)));
        assert(keys_unique(self@)) by {
            assert forall|a: int, b: int| 0 <= a < b < self@.len() implies (#[trigger] self@[a]).0
                != (#[trigger] self@[b]).0 by {
                if b == before.len() {
                    assert(self@[a] == before[a]);
                }
            }
        }
    }
}

} // verus!
