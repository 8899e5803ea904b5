//! Finding the field that holds the inventory selection.
//!
//! The method is a differential scan. The menu object is read every poll, and
//! any word that changed to a different value in the range a six-slot
//! selection can hold is counted. A field that keeps doing that while the
//! player moves around the panel is a candidate; nothing else in the object
//! behaves that way for long. Diagnostic only: the host reads the object and
//! logs what this module reports.

use vstd::prelude::*;

use crate::bytes::{le_i32, read_i32};

verus! {

/// How much of the menu object is watched.
pub const SCAN_BYTES: usize = 0x800;

/// Words in the watched part.
pub const WORDS: usize = 0x200;

/// Highest value a selection over six slots can hold.
pub const SELECTION_MAX: i32 = 5;

/// Changes a field must make before it is worth reporting. One change proves
/// nothing: plenty of counters pass through small numbers.
pub const REPORT_AFTER: u32 = 5;

/// Fields reported before going quiet, so a noisy object cannot fill the log.
pub const REPORT_LIMIT: usize = 12;

/// A field that has just made its fifth move inside the selection's range.
#[derive(Clone, Copy, Debug, PartialEq, Eq, Structural)]
pub struct Candidate {
    /// Offset into the menu object.
    pub offset: usize,
    pub was: i32,
    pub now: i32,
}

/// The scan against one menu object.
pub struct Watch {
    menu: usize,
    previous: Vec<u8>,
    /// Moves counted for each word.
    hits: Vec<u32>,
    reported: usize,
}

pub open spec fn in_range(v: i32) -> bool {
    0 <= v <= SELECTION_MAX
}

/// Whether word `w` moved from `prev` to `cur`, both ends inside the range:
/// that rules out counters that merely pass through it.
pub open spec fn moved(prev: Seq<u8>, cur: Seq<u8>, w: int) -> bool {
    let was = le_i32(prev, 4 * w);
    let now = le_i32(cur, 4 * w);
    was != now && in_range(was) && in_range(now)
}

/// A count one higher, where it can be.
pub open spec fn bumped(h: u32) -> u32 {
    if h < u32::MAX {
        (h + 1) as u32
    } else {
        h
    }
}

/// The counts after one more comparison.
pub open spec fn counted(prev: Seq<u8>, cur: Seq<u8>, hits: Seq<u32>) -> Seq<u32> {
    Seq::new(
        hits.len(),
        |w: int|
            if moved(prev, cur, w) {
                bumped(hits[w])
            } else {
                hits[w]
            },
    )
}

/// Whether word `w` reaches the reporting count with this comparison.
pub open spec fn newly(prev: Seq<u8>, cur: Seq<u8>, hits: Seq<u32>, w: int) -> bool {
    moved(prev, cur, w) && bumped(hits[w]) == REPORT_AFTER
}

pub open spec fn candidate_at(prev: Seq<u8>, cur: Seq<u8>, w: int) -> Candidate {
    Candidate { offset: (4 * w) as usize, was: le_i32(prev, 4 * w), now: le_i32(cur, 4 * w) }
}

/// The candidates among the first `n` words, in order, no more than `room`.
pub open spec fn reports(prev: Seq<u8>, cur: Seq<u8>, hits: Seq<u32>, n: int, room: int) -> Seq<Candidate>
    decreases n,
{
    if n <= 0 {
        seq![]
    } else {
        let before = reports(prev, cur, hits, n - 1, room);
        if newly(prev, cur, hits, n - 1) && before.len() < room {
            before.push(candidate_at(prev, cur, n - 1))
        } else {
            before
        }
    }
}

proof fn lemma_reports_fit(prev: Seq<u8>, cur: Seq<u8>, hits: Seq<u32>, n: int, room: int)
    requires
        0 <= room,
    ensures
        reports(prev, cur, hits, n, room).len() <= room,
    decreases n,
{
    if n > 0 {
        lemma_reports_fit(prev, cur, hits, n - 1, room);
    }
}

impl Watch {
    pub closed spec fn menu_of(&self) -> usize {
        self.menu
    }

    pub closed spec fn previous_of(&self) -> Seq<u8> {
        self.previous@
    }

    pub closed spec fn hits_of(&self) -> Seq<u32> {
        self.hits@
    }

    pub closed spec fn reported_of(&self) -> usize {
        self.reported
    }

    pub open spec fn wf(&self) -> bool {
        &&& self.previous_of().len() == SCAN_BYTES
        &&& self.hits_of().len() == WORDS
        &&& self.reported_of() <= REPORT_LIMIT
    }

    /// The menu object this scan is against.
    pub fn menu(&self) -> (r: usize)
        ensures
            r == self.menu_of(),
    {
        self.menu
    }
}

/// Whether `w` is a watch just started on `menu` from `current`.
pub open spec fn started(w: Watch, menu: usize, current: Seq<u8>) -> bool {
    &&& w.menu_of() == menu
    &&& w.previous_of() == current
    &&& w.hits_of() == Seq::new(WORDS as nat, |k: int| 0u32)
    &&& w.reported_of() == 0
}

/// Compares the menu object `menu`, whose watched bytes now read `current`,
/// with the last look at it, and gives the fields that have just earned a
/// report. A different menu object means a different inventory screen: the
/// counts gathered against the old one say nothing about it, and the scan
/// starts over.
pub fn sample(watch: &mut Option<Watch>, menu: usize, current: Vec<u8>) -> (r: Vec<Candidate>)
    requires
        current@.len() == SCAN_BYTES,
        *old(watch) matches Some(w) ==> w.wf(),
    ensures
        *final(watch) matches Some(w) && w.wf(),
        match *old(watch) {
            Some(w) if w.menu_of() == menu => *final(watch) matches Some(n) && {
                &&& n.menu_of() == menu
                &&& n.previous_of() == current@
                &&& n.hits_of() == counted(w.previous_of(), current@, w.hits_of())
                &&& r@ == reports(
                    w.previous_of(),
                    current@,
                    w.hits_of(),
                    WORDS as int,
                    REPORT_LIMIT - w.reported_of(),
                )
                &&& n.reported_of() == w.reported_of() + r@.len()
            },
            _ => r@.len() == 0 && (*final(watch) matches Some(n) && started(n, menu, current@)),
        },
{
    let restart = match watch {
        Some(w) => w.menu != menu,
        None => true,
    };
    if restart {
        let mut hits: Vec<u32> = Vec::new();
        let mut k: usize = 0;
        while k < WORDS
            invariant
                k <= WORDS,
                hits@ == Seq::new(k as nat, |j: int| 0u32),
            decreases WORDS - k,
        {
            hits.push(0);
            k += 1;
            assert(hits@ =~= Seq::new(k as nat, |j: int| 0u32));
        }
        *watch = Some(Watch { menu, previous: current, hits, reported: 0 });
        return Vec::new();
    }
    let mut w = watch.take().unwrap();
    let ghost hits0 = w.hits@;
    let ghost prev = w.previous@;
    let ghost reported0 = w.reported;
    let mut out: Vec<Candidate> = Vec::new();
    let mut k: usize = 0;
    while k < WORDS
        invariant
            k <= WORDS,
            prev.len() == SCAN_BYTES,
            current@.len() == SCAN_BYTES,
            w.previous@ == prev,
            w.menu == menu,
            hits0.len() == WORDS,
            w.hits@.len() == WORDS,
            reported0 <= REPORT_LIMIT,
            forall|j: int| 0 <= j < k ==> #[trigger] w.hits@[j] == counted(prev, current@, hits0)[j],
            forall|j: int| k <= j < WORDS ==> #[trigger] w.hits@[j] == hits0[j],
            out@ == reports(prev, current@, hits0, k as int, REPORT_LIMIT - reported0),
            w.reported == reported0 + out@.len(),
            w.reported <= REPORT_LIMIT,
        decreases WORDS - k,
    {
        let offset = 4 * k;
        let was = read_i32(w.previous.as_slice(), offset);
        let now = read_i32(current.as_slice(), offset);
        let ghost before = out@;
        if was != now && 0 <= was && was <= SELECTION_MAX && 0 <= now && now <= SELECTION_MAX {
            let h = w.hits[k];
            let bumped_h = if h < u32::MAX {
                h + 1
            } else {
                h
            };
            w.hits.set(k, bumped_h);
            if bumped_h == REPORT_AFTER && w.reported < REPORT_LIMIT {
                w.reported = w.reported + 1;
                out.push(Candidate { offset, was, now });
            }
        }
        proof {
            assert(moved(prev, current@, k as int) == (was != now && in_range(was) && in_range(now)));
        }
        k += 1;
    }
    assert(w.hits@ =~= counted(prev, current@, hits0));
    w.previous = current;
    *watch = Some(w);
    out
}

/// Whether `a` ranks above `b`: more moves, or as many further into the
/// object.
pub open spec fn above(a: (u32, usize), b: (u32, usize)) -> bool {
    a.0 > b.0 || (a.0 == b.0 && a.1 > b.1)
}

fn ranks_above(a: (u32, usize), b: (u32, usize)) -> (r: bool)
    ensures
        r == above(a, b),
{
    a.0 > b.0 || (a.0 == b.0 && a.1 > b.1)
}

/// Word `w`'s count with its offset.
pub open spec fn pair_of(hits: Seq<u32>, w: int) -> (u32, usize) {
    (hits[w], (4 * w) as usize)
}

/// Whether `p` is a counted word's pair.
pub open spec fn counted_pair(hits: Seq<u32>, p: (u32, usize)) -> bool {
    &&& p.1 % 4 == 0
    &&& p.1 / 4 < hits.len()
    &&& p.0 > 0
    &&& hits[(p.1 / 4) as int] == p.0
}

/// Whether `out` is the best `REPORT_LIMIT` of the counted words, best first.
pub open spec fn top_ranked(hits: Seq<u32>, out: Seq<(u32, usize)>) -> bool {
    &&& out.len() <= REPORT_LIMIT
    &&& forall|i: int| 0 <= i < out.len() ==> counted_pair(hits, #[trigger] out[i])
    &&& forall|i: int, j: int| 0 <= i < j < out.len() ==> above(#[trigger] out[i], #[trigger] out[j])
    &&& forall|w: int|
        0 <= w < hits.len() && #[trigger] hits[w] > 0 ==> out.contains(pair_of(hits, w)) || (out.len()
            == REPORT_LIMIT && above(out.last(), pair_of(hits, w)))
}

/// Every field that has moved, with its count, best first, no more than
/// `REPORT_LIMIT` of them.
pub fn ranked(watch: &Watch) -> (r: Vec<(u32, usize)>)
    requires
        watch.wf(),
    ensures
        top_ranked(watch.hits_of(), r@),
{
    let hits = &watch.hits;
    let mut out: Vec<(u32, usize)> = Vec::new();
    let mut done = false;
    while !done && out.len() < REPORT_LIMIT
        invariant
            hits@.len() == WORDS,
            out@.len() <= REPORT_LIMIT,
            forall|i: int| 0 <= i < out@.len() ==> counted_pair(hits@, #[trigger] out@[i]),
            forall|i: int, j: int| 0 <= i < j < out@.len() ==> above(#[trigger] out@[i], #[trigger] out@[j]),
            forall|w: int|
                0 <= w < WORDS && #[trigger] hits@[w] > 0 ==> out@.contains(pair_of(hits@, w)) || (!done
                    && (out@.len() == 0 || above(out@.last(), pair_of(hits@, w)))),
        decreases (REPORT_LIMIT - out@.len()) * 2 + if done {
            0int
        } else {
            1int
        },
    {
        let mut best: Option<(u32, usize)> = None;
        let mut k: usize = 0;
        while k < WORDS
            invariant
                k <= WORDS,
                hits@.len() == WORDS,
                out@.len() < REPORT_LIMIT,
                best matches Some(b) ==> counted_pair(hits@, b) && (out@.len() == 0 || above(out@.last(), b))
                    && b.1 < 4 * k,
                forall|w: int|
                    0 <= w < k && #[trigger] hits@[w] > 0 && (out@.len() == 0 || above(
                        out@.last(),
                        pair_of(hits@, w),
                    )) ==> (best matches Some(b) && (b == pair_of(hits@, w) || above(b, pair_of(hits@, w)))),
            decreases WORDS - k,
        {
            let h = hits[k];
            if h > 0 {
                let p = (h, 4 * k);
                let eligible = out.len() == 0 || ranks_above(out[out.len() - 1], p);
                if eligible {
                    let better = match best {
                        None => true,
                        Some(b) => ranks_above(p, b),
                    };
                    if better {
                        best = Some(p);
                    }
                }
                proof {
                    assert(p == pair_of(hits@, k as int));
                    assert(counted_pair(hits@, p)) by {
                        assert((4 * k) as int / 4 == k);
                    }
                }
            }
            k += 1;
        }
        match best {
            None => {
                done = true;
            },
            Some(b) => {
                let ghost old_out = out@;
                out.push(b);
                proof {
                    assert forall|w: int|
                        0 <= w < WORDS && #[trigger] hits@[w] > 0 implies out@.contains(pair_of(hits@, w))
                        || (!done && (out@.len() == 0 || above(out@.last(), pair_of(hits@, w)))) by {
                        if pair_of(hits@, w) == b {
                            assert(out@[out@.len() - 1] == b);
                        } else if old_out.contains(pair_of(hits@, w)) {
                            let i = choose|i: int| 0 <= i < old_out.len() && old_out[i] == pair_of(hits@, w);
                            assert(out@[i] == old_out[i]);
                        } else {
                            assert(b.1 / 4 != w || b.0 != hits@[w]);
                        }
                    }
                    assert forall|i: int, j: int| 0 <= i < j < out@.len() implies above(
                        #[trigger] out@[i],
                        #[trigger] out@[j],
                    ) by {
                        if j == out@.len() - 1 && i < old_out.len() - 1 {
                            assert(above(old_out[i], old_out.last()));
                        }
                    }
                }
            },
        }
    }
    out
}

/// A field is reported once per menu object: a word whose count has reached
/// the reporting count is not reported by any later comparison, and its count
/// stays there.
pub proof fn law_reported_once(prev: Seq<u8>, cur: Seq<u8>, hits: Seq<u32>, w: int)
    requires
        0 <= w < hits.len(),
        hits[w] >= REPORT_AFTER,
    ensures
        !newly(prev, cur, hits, w),
        counted(prev, cur, hits)[w] >= REPORT_AFTER,
{
}

} // verus!
