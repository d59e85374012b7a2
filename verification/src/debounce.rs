//! Debouncing of the raw switch matrix.
//!
//! The filtering itself is done by `keyberon::debounce::Debouncer`, which
//! the module `filter` brings in. This module states what that filter does
//! as a transition on a small mathematical state, and proves the stability
//! laws from it.

use vstd::prelude::*;
use crate::event::Event;
use crate::filter::{debouncer_events, debouncer_new, model};

verus! {

/// One sample of the switch matrix: `true` where a switch is closed.
pub type RawMatrix = [[bool; 3]; 3];

/// The mathematical form of a matrix sample, rows of cells.
pub type Grid = Seq<Seq<bool>>;

/// The grid of a sample.
pub open spec fn grid(m: RawMatrix) -> Grid {
    Seq::new(3, |r: int| m[r]@)
}

/// Whether `g` has the shape of the switch matrix.
pub open spec fn shaped(g: Grid) -> bool {
    g.len() == 3 && forall|r: int| 0 <= r < 3 ==> (#[trigger] g[r]).len() == 3
}

/// The grid with every switch open.
pub open spec fn blank() -> Grid {
    Seq::new(3, |r: int| Seq::new(3, |c: int| false))
}

/// The events that tell `before` from `after` among the first `n` cells,
/// the cells counted row by row.
pub open spec fn changes_upto(before: Grid, after: Grid, n: nat) -> Seq<Event>
    decreases n,
{
    if n == 0 {
        Seq::empty()
    } else {
        let k = n - 1;
        let r = k / 3;
        let c = k % 3;
        let earlier = changes_upto(before, after, k as nat);
        if !before[r][c] && after[r][c] {
            earlier.push(Event::Press(r as u8, c as u8))
        } else if before[r][c] && !after[r][c] {
            earlier.push(Event::Release(r as u8, c as u8))
        } else {
            earlier
        }
    }
}

/// The events that tell `before` from `after`: a press for each cell that
/// closed and a release for each cell that opened, row by row.
pub open spec fn changes(before: Grid, after: Grid) -> Seq<Event> {
    changes_upto(before, after, 9)
}

/// What a debouncer remembers between samples.
pub struct DebounceState {
    /// The grid last reported through events.
    pub settled: Grid,
    /// The grid that is waiting to replace `settled`.
    pub pending: Grid,
    /// How many samples in a row were equal to `pending` and not to `settled`.
    pub streak: nat,
    /// The longest such run that is still held back.
    pub limit: nat,
}

impl DebounceState {
    /// The number of equal samples in a row that make a change count.
    pub open spec fn threshold(self) -> nat {
        self.limit + 1
    }

    /// The length that the run of samples equal to `raw` reaches with `raw`.
    pub open spec fn run_with(self, raw: Grid) -> nat {
        if raw == self.pending {
            self.streak + 1
        } else {
            1
        }
    }

    /// Whether the sample `raw` replaces the settled grid.
    pub open spec fn commits(self, raw: Grid) -> bool {
        raw != self.settled && self.run_with(raw) >= self.threshold()
    }

    /// The state after the sample `raw`.
    pub open spec fn step(self, raw: Grid) -> DebounceState {
        if raw == self.settled {
            DebounceState { streak: 0, ..self }
        } else if self.commits(raw) {
            DebounceState { settled: raw, pending: self.settled, streak: 0, limit: self.limit }
        } else {
            DebounceState { pending: raw, streak: self.run_with(raw), ..self }
        }
    }

    /// The events that the sample `raw` gives rise to.
    pub open spec fn emitted(self, raw: Grid) -> Seq<Event> {
        if self.commits(raw) {
            changes(self.settled, raw)
        } else {
            Seq::empty()
        }
    }

    /// The state after every sample of `trace`, in order.
    pub open spec fn replay(self, trace: Seq<Grid>) -> DebounceState
        decreases trace.len(),
    {
        if trace.len() == 0 {
            self
        } else {
            self.replay(trace.drop_last()).step(trace.last())
        }
    }

    /// The state after `n` samples that all show `raw`.
    pub open spec fn hold(self, raw: Grid, n: nat) -> DebounceState
        decreases n,
    {
        if n == 0 {
            self
        } else {
            self.hold(raw, (n - 1) as nat).step(raw)
        }
    }

    /// What every state of a running debouncer satisfies.
    pub open spec fn well_formed(self) -> bool {
        &&& shaped(self.settled)
        &&& shaped(self.pending)
        &&& self.streak <= self.limit
        &&& self.limit < u16::MAX
    }
}

/// Filters contact bounce out of the raw samples of the switch matrix.
pub struct MatrixDebouncer {
    inner: keyberon::debounce::Debouncer<[[bool; 3]; 3]>,
}

impl View for MatrixDebouncer {
    type V = DebounceState;

    closed spec fn view(&self) -> DebounceState {
        model(self.inner)
    }
}

impl MatrixDebouncer {
    /// A debouncer that starts with every switch open and reports a change
    /// once `threshold` samples in a row have shown it. A threshold of zero
    /// counts as one.
    pub fn new(threshold: u16) -> (d: MatrixDebouncer)
        ensures
            d@.well_formed(),
            d@.settled == blank(),
            d@.pending == blank(),
            d@.streak == 0,
            d@.threshold() == if threshold == 0 { 1 } else { threshold as nat },
    {
        let limit: u16 = if threshold == 0 { 0 } else { threshold - 1 };
        let open: RawMatrix = [[false; 3]; 3];
        let inner = debouncer_new(open, open, limit);
        proof {
            assert(grid(open) =~~= blank());
        }
        MatrixDebouncer { inner }
    }

    /// Takes the sample of one scan period and returns the events it gives
    /// rise to.
    pub fn events(&mut self, raw: RawMatrix) -> (events: Vec<Event>)
        requires
            old(self)@.well_formed(),
        ensures
            final(self)@ == old(self)@.step(grid(raw)),
            events@ == old(self)@.emitted(grid(raw)),
            final(self)@.well_formed(),
    {
        proof {
            lemma_step_keeps_well_formed(self@, grid(raw));
        }
        debouncer_events(&mut self.inner, raw)
    }
}

/// A step on a sample of the matrix keeps a state well formed.
pub proof fn lemma_step_keeps_well_formed(s: DebounceState, raw: Grid)
    requires
        s.well_formed(),
        shaped(raw),
    ensures
        s.step(raw).well_formed(),
{
}

/// Whether the `n` samples of `trace` that end with sample `i` all show the
/// same grid.
pub open spec fn steady(trace: Seq<Grid>, i: int, n: nat) -> bool {
    &&& n <= i + 1
    &&& forall|k: int| i - n < k <= i ==> #[trigger] trace[k] == trace[i]
}

/// After any trace, the streak counts samples at the end of the trace that
/// all showed the pending grid.
proof fn lemma_streak_counts_trailing_samples(s: DebounceState, trace: Seq<Grid>)
    requires
        s.streak == 0,
    ensures
        s.replay(trace).limit == s.limit,
        s.replay(trace).streak <= trace.len(),
        forall|k: int|
            trace.len() - s.replay(trace).streak <= k < trace.len() ==> #[trigger] trace[k]
                == s.replay(trace).pending,
    decreases trace.len(),
{
    if trace.len() > 0 {
        let before = trace.drop_last();
        lemma_streak_counts_trailing_samples(s, before);
        assert forall|k: int|
            trace.len() - s.replay(trace).streak <= k < trace.len() implies #[trigger] trace[k]
            == s.replay(trace).pending by {
            if k < trace.len() - 1 {
                assert(trace[k] == before[k]);
            }
        }
    }
}

/// A signal that changes faster than the threshold never gives an event:
/// whenever sample `i` of a trace gives rise to events, that sample and the
/// ones before it, `threshold` samples in all, showed one and the same grid.
pub proof fn lemma_events_need_steady_samples(s: DebounceState, trace: Seq<Grid>, i: int)
    requires
        s.streak == 0,
        0 <= i < trace.len(),
        s.replay(trace.take(i)).emitted(trace[i]).len() > 0,
    ensures
        steady(trace, i, s.threshold()),
{
    let before = trace.take(i);
    lemma_streak_counts_trailing_samples(s, before);
    assert forall|k: int| i - s.threshold() < k <= i implies #[trigger] trace[k] == trace[i] by {
        if k < i {
            assert(trace[k] == before[k]);
        }
    }
}

/// The same of a single switch: an event of a switch comes only with a
/// sample up to which the signal of that switch stayed the same for
/// `threshold` samples.
pub proof fn lemma_event_needs_steady_switch(s: DebounceState, trace: Seq<Grid>, i: int, e: Event)
    requires
        s.streak == 0,
        0 <= i < trace.len(),
        s.replay(trace.take(i)).emitted(trace[i]).contains(e),
    ensures
        s.threshold() <= i + 1,
        forall|k: int|
            i - s.threshold() < k <= i ==> (#[trigger] trace[k])[e.position().0 as int][e.position().1 as int]
                == trace[i][e.position().0 as int][e.position().1 as int],
{
    lemma_events_need_steady_samples(s, trace, i);
}

/// A signal that holds steady gives its events once, with the sample that
/// completes the threshold: when a grid `raw` that differs from the settled
/// one starts a fresh run, the sample after `n` earlier ones of the run
/// reports the changes if `n + 1` is the threshold, and nothing otherwise.
pub proof fn lemma_steady_signal_reports_once(s: DebounceState, raw: Grid, n: nat)
    requires
        raw != s.settled,
        s.streak == 0 || s.pending != raw,
    ensures
        s.hold(raw, n).emitted(raw) == if n + 1 == s.threshold() {
            changes(s.settled, raw)
        } else {
            Seq::<Event>::empty()
        },
{
    lemma_hold(s, raw, n);
}

/// The state that a fresh run of `n` equal samples leads to.
proof fn lemma_hold(s: DebounceState, raw: Grid, n: nat)
    requires
        raw != s.settled,
        s.streak == 0 || s.pending != raw,
    ensures
        n == 0 ==> s.hold(raw, n) == s,
        0 < n < s.threshold() ==> s.hold(raw, n) == (DebounceState { pending: raw, streak: n, ..s }),
        n >= s.threshold() ==> s.hold(raw, n) == (DebounceState {
            settled: raw,
            pending: s.settled,
            streak: 0,
            limit: s.limit,
        }),
    decreases n,
{
    if n > 0 {
        lemma_hold(s, raw, (n - 1) as nat);
    }
}

/// Among the first `n` cells, a press is listed exactly for the cells that
/// closed and a release exactly for the cells that opened, and no cell is
/// listed twice.
proof fn lemma_changes_upto(before: Grid, after: Grid, n: nat)
    requires
        n <= 9,
    ensures
        changes_upto(before, after, n).len() <= n,
        forall|r: u8, c: u8| #[trigger]
            changes_upto(before, after, n).contains(Event::Press(r, c)) <==> (r < 3 && c < 3 && 3
                * r + c < n && !before[r as int][c as int] && after[r as int][c as int]),
        forall|r: u8, c: u8| #[trigger]
            changes_upto(before, after, n).contains(Event::Release(r, c)) <==> (r < 3 && c < 3 && 3
                * r + c < n && before[r as int][c as int] && !after[r as int][c as int]),
        forall|i: int, j: int|
            0 <= i < j < changes_upto(before, after, n).len() ==> (#[trigger] changes_upto(
                before,
                after,
                n,
            )[i]).position() != (#[trigger] changes_upto(before, after, n)[j]).position(),
        forall|i: int|
            0 <= i < changes_upto(before, after, n).len() ==> 3 * (#[trigger] changes_upto(
                before,
                after,
                n,
            )[i]).position().0 + changes_upto(before, after, n)[i].position().1 < n,
    decreases n,
{
    if n > 0 {
        let k = (n - 1) as nat;
        lemma_changes_upto(before, after, k);
        let earlier = changes_upto(before, after, k);
        let now = changes_upto(before, after, n);
        assert forall|r: u8, c: u8| #[trigger]
            now.contains(Event::Press(r, c)) <==> (r < 3 && c < 3 && 3 * r + c < n
                && !before[r as int][c as int] && after[r as int][c as int]) by {
            let e = Event::Press(r, c);
            if now.contains(e) {
                let i = choose|i: int| 0 <= i < now.len() && now[i] == e;
                if i < earlier.len() {
                    assert(earlier.contains(e));
                }
            }
            if r < 3 && c < 3 && 3 * r + c < n && !before[r as int][c as int]
                && after[r as int][c as int] {
                if 3 * r + c < k {
                    assert(earlier.contains(e));
                    let i = choose|i: int| 0 <= i < earlier.len() && earlier[i] == e;
                    assert(now[i] == e);
                } else {
                    assert(now[now.len() - 1] == e);
                }
            }
        }
        assert forall|r: u8, c: u8| #[trigger]
            now.contains(Event::Release(r, c)) <==> (r < 3 && c < 3 && 3 * r + c < n
                && before[r as int][c as int] && !after[r as int][c as int]) by {
            let e = Event::Release(r, c);
            if now.contains(e) {
                let i = choose|i: int| 0 <= i < now.len() && now[i] == e;
                if i < earlier.len() {
                    assert(earlier.contains(e));
                }
            }
            if r < 3 && c < 3 && 3 * r + c < n && before[r as int][c as int]
                && !after[r as int][c as int] {
                if 3 * r + c < k {
                    assert(earlier.contains(e));
                    let i = choose|i: int| 0 <= i < earlier.len() && earlier[i] == e;
                    assert(now[i] == e);
                }
            }
        }
    }
}

/// Two grids of the matrix that differ give at least one event.
pub proof fn lemma_changes_not_empty(before: Grid, after: Grid)
    requires
        shaped(before),
        shaped(after),
        before != after,
    ensures
        changes(before, after).len() > 0,
{
    if changes(before, after).len() == 0 {
        lemma_changes_upto(before, after, 9);
        assert forall|r: int, c: int| 0 <= r < 3 && 0 <= c < 3 implies before[r][c] == after[r][c] by {
            let pressed = Event::Press(r as u8, c as u8);
            let released = Event::Release(r as u8, c as u8);
            assert(!changes_upto(before, after, 9).contains(pressed));
            assert(!changes_upto(before, after, 9).contains(released));
        }
        assert forall|r: int| 0 <= r < 3 implies before[r] =~= after[r] by {}
        assert(before =~= after);
    }
}

/// What the events of a change say: a press is listed exactly for the cells
/// that closed, a release exactly for the cells that opened, and no cell is
/// listed twice.
pub proof fn lemma_changes(before: Grid, after: Grid)
    ensures
        changes(before, after).len() <= 9,
        forall|r: u8, c: u8| #[trigger]
            changes(before, after).contains(Event::Press(r, c)) <==> (r < 3 && c < 3
                && !before[r as int][c as int] && after[r as int][c as int]),
        forall|r: u8, c: u8| #[trigger]
            changes(before, after).contains(Event::Release(r, c)) <==> (r < 3 && c < 3
                && before[r as int][c as int] && !after[r as int][c as int]),
        forall|i: int, j: int|
            0 <= i < j < changes(before, after).len() ==> (#[trigger] changes(before, after)[i]).position()
                != (#[trigger] changes(before, after)[j]).position(),
{
    lemma_changes_upto(before, after, 9);
}

/// One cell that changes gives exactly one event: if two grids of the
/// matrix differ in the cell `(r, c)` and in no other, the events that tell
/// them apart are the one press or release of that cell.
pub proof fn lemma_single_change_single_event(before: Grid, after: Grid, r: u8, c: u8)
    requires
        shaped(before),
        shaped(after),
        r < 3,
        c < 3,
        before[r as int][c as int] != after[r as int][c as int],
        forall|x: int, y: int|
            0 <= x < 3 && 0 <= y < 3 && (x != r || y != c) ==> before[x][y] == after[x][y],
    ensures
        changes(before, after) == if after[r as int][c as int] {
            seq![Event::Press(r, c)]
        } else {
            seq![Event::Release(r, c)]
        },
{
    lemma_changes(before, after);
    let all = changes(before, after);
    let only = if after[r as int][c as int] {
        Event::Press(r, c)
    } else {
        Event::Release(r, c)
    };
    assert(all.contains(only));
    assert forall|i: int| 0 <= i < all.len() implies all[i] == only by {
        assert(all.contains(all[i]));
        match all[i] {
            Event::Press(x, y) => {
                assert(x == r && y == c && after[r as int][c as int]);
            },
            Event::Release(x, y) => {
                assert(x == r && y == c && !after[r as int][c as int]);
            },
        }
    }
    if all.len() > 1 {
        assert(all[0].position() != all[1].position());
    }
}

} // verus!
