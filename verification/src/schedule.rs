//! Decisions of the background workers: when the index is rescanned and over
//! which folders, whether the cached snapshot may be shown, and which of several
//! queued requests is served. The caller owns the channels, the timer and the
//! threads, and performs the actions these functions return.
use vstd::prelude::*;

use crate::scan::{all_texts, compare_path};
use crate::text::{slice_range, texts};

verus! {

/// Seconds between the end of one scan and the next scheduled one.
pub const RESCAN_SECONDS: u64 = 60;

/// Of a request and those queued after it, the newest.
pub fn newest<T>(first: T, later: Vec<T>) -> (r: T)
    ensures
        r == (if later@.len() == 0 {
            first
        } else {
            later@.last()
        }),
{
    let mut later = later;
    match later.pop() {
        Some(last) => last,
        None => first,
    }
}

/// What happened to the scanner. Folders are given as their path components
/// (each tagged with its kind, as the walk reports them), so that two spellings
/// of one path, such as with and without a trailing separator, are one folder.
pub enum ScanEvent {
    /// The scanner started; the folders of the cached snapshot, when a cache could be read.
    Start { cached: Option<Vec<Vec<Vec<char>>>> },
    /// The cached snapshot was published.
    CacheShown,
    /// Rebuilds were requested, oldest first, each with the folders to index.
    Rebuild { requests: Vec<Vec<Vec<Vec<char>>>> },
    /// The wait after a scan ran out.
    Timeout,
    /// The other side of the worker is gone.
    Closed,
}

/// What the scanner does next.
pub enum ScanAction {
    /// Publish the cached snapshot.
    ShowCache,
    /// Scan these folders, publish and save the snapshot, then wait for the
    /// next event (at most `RESCAN_SECONDS`).
    Scan { roots: Vec<Vec<Vec<char>>> },
    /// End the worker.
    Stop,
}

/// The components of each folder.
pub open spec fn folders(v: Seq<Vec<Vec<char>>>) -> Seq<Seq<Seq<char>>> {
    all_texts(v)
}

pub(crate) fn copy_path(p: &Vec<Vec<char>>) -> (r: Vec<Vec<char>>)
    ensures
        texts(r@) == texts(p@),
{
    let mut r: Vec<Vec<char>> = Vec::new();
    let mut i: usize = 0;
    while i < p.len()
        invariant
            i <= p@.len(),
            r@.len() == i,
            forall|j: int| 0 <= j < i ==> (#[trigger] r@[j])@ == p@[j]@,
        decreases p@.len() - i,
    {
        let part = &p[i];
        r.push(slice_range(part.as_slice(), 0, part.len()));
        assert(p@[i as int]@.subrange(0, p@[i as int]@.len() as int) =~= p@[i as int]@);
        i = i + 1;
    }
    assert(texts(r@) =~= texts(p@));
    r
}

fn copy_folders(v: &Vec<Vec<Vec<char>>>) -> (r: Vec<Vec<Vec<char>>>)
    ensures
        folders(r@) == folders(v@),
{
    let mut r: Vec<Vec<Vec<char>>> = Vec::new();
    let mut i: usize = 0;
    while i < v.len()
        invariant
            i <= v@.len(),
            r@.len() == i,
            forall|j: int| 0 <= j < i ==> texts((#[trigger] r@[j])@) == texts(v@[j]@),
        decreases v@.len() - i,
    {
        r.push(copy_path(&v[i]));
        i = i + 1;
    }
    assert(folders(r@) =~= folders(v@));
    r
}

/// Do two lists name the same folders, component by component, in the same order?
pub fn same_folders(a: &Vec<Vec<Vec<char>>>, b: &Vec<Vec<Vec<char>>>) -> (r: bool)
    ensures
        r == (folders(a@) == folders(b@)),
{
    if a.len() != b.len() {
        assert(folders(a@).len() != folders(b@).len());
        return false;
    }
    let mut i: usize = 0;
    while i < a.len()
        invariant
            a@.len() == b@.len(),
            i <= a@.len(),
            forall|j: int| 0 <= j < i ==> texts(a@[j]@) == texts(b@[j]@),
        decreases a@.len() - i,
    {
        if compare_path(&a[i], &b[i]) != 0 {
            assert(folders(a@)[i as int] != folders(b@)[i as int]);
            return false;
        }
        i = i + 1;
    }
    assert(folders(a@) =~= folders(b@));
    true
}

/// One step of the scanner, from the folders it indexes and an event to the
/// folders it indexes next and what it does now. The cache is shown only when
/// it was made from the configured folders (compared as paths); a rebuild takes
/// the newest requested folders; a timeout rescans the same folders; a closed
/// channel stops.
pub fn scanner_step(current: Vec<Vec<Vec<char>>>, event: ScanEvent) -> (r: (Vec<Vec<Vec<char>>>, ScanAction))
    ensures
        match event {
            ScanEvent::Start { cached } => {
                &&& folders(r.0@) == folders(current@)
                &&& (match cached {
                    Some(c) => folders(c@) == folders(current@),
                    None => false,
                }) ==> r.1 is ShowCache
                &&& !(match cached {
                    Some(c) => folders(c@) == folders(current@),
                    None => false,
                }) ==> (r.1 matches ScanAction::Scan { roots } && folders(roots@) == folders(
                    current@,
                ))
            },
            ScanEvent::CacheShown | ScanEvent::Timeout => {
                &&& folders(r.0@) == folders(current@)
                &&& r.1 matches ScanAction::Scan { roots } && folders(roots@) == folders(current@)
            },
            ScanEvent::Rebuild { requests } => {
                let next = if requests@.len() == 0 {
                    folders(current@)
                } else {
                    folders(requests@.last()@)
                };
                &&& folders(r.0@) == next
                &&& r.1 matches ScanAction::Scan { roots } && folders(roots@) == next
            },
            ScanEvent::Closed => folders(r.0@) == folders(current@) && r.1 is Stop,
        },
{
    match event {
        ScanEvent::Start { cached } => {
            let matches = match &cached {
                Some(c) => same_folders(c, &current),
                None => false,
            };
            if matches {
                (current, ScanAction::ShowCache)
            } else {
                let roots = copy_folders(&current);
                (current, ScanAction::Scan { roots })
            }
        },
        ScanEvent::CacheShown | ScanEvent::Timeout => {
            let roots = copy_folders(&current);
            (current, ScanAction::Scan { roots })
        },
        ScanEvent::Rebuild { requests } => {
            let next = newest(current, requests);
            let roots = copy_folders(&next);
            (next, ScanAction::Scan { roots })
        },
        ScanEvent::Closed => (current, ScanAction::Stop),
    }
}

} // verus!
