//! Chord detection: several keys pressed together stand for one key.
//!
//! A chord is engaged when the presses of all its members arrive in the
//! batch of one scan period. From then on the members' own events are
//! withheld, and a press of the trigger position stands in for them. The
//! first release of a member ends the chord with a release of the trigger.

use vstd::prelude::*;
use crate::event::Event;

verus! {

/// The press event at a position.
pub open spec fn press_at(pos: (u8, u8)) -> Event {
    Event::Press(pos.0, pos.1)
}

/// The release event at a position.
pub open spec fn release_at(pos: (u8, u8)) -> Event {
    Event::Release(pos.0, pos.1)
}

/// A chord: the positions that make it up and the position it stands for.
#[derive(Debug)]
pub struct ChordDef {
    /// The position whose press and release the chord produces.
    pub trigger: (u8, u8),
    /// The positions that have to be pressed together.
    pub members: Vec<(u8, u8)>,
}

/// Why a list of chords is refused.
#[derive(Clone, Copy, Debug, PartialEq, Eq, Structural)]
pub enum ChordError {
    /// The chord with this index has fewer than two members.
    TooFewMembers(usize),
    /// The trigger of the chord with this index is a member of some chord.
    TriggerIsMember(usize),
}

impl ChordDef {
    /// Whether `pos` is one of the chord's members.
    pub open spec fn is_member(&self, pos: (u8, u8)) -> bool {
        self.members@.contains(pos)
    }

    /// Whether `batch` holds a press of every member.
    pub open spec fn all_pressed_in(&self, batch: Seq<Event>) -> bool {
        forall|i: int|
            0 <= i < self.members@.len() ==> batch.contains(press_at(#[trigger] self.members@[i]))
    }

    /// Whether `batch` holds a release of some member.
    pub open spec fn any_released_in(&self, batch: Seq<Event>) -> bool {
        exists|i: int|
            0 <= i < self.members@.len() && batch.contains(release_at(#[trigger] self.members@[i]))
    }

    /// The events of `batch` that are not at a member's position, in order.
    pub open spec fn outside(&self, batch: Seq<Event>) -> Seq<Event>
        decreases batch.len(),
    {
        if batch.len() == 0 {
            Seq::empty()
        } else if self.is_member(batch.last().position()) {
            self.outside(batch.drop_last())
        } else {
            self.outside(batch.drop_last()).push(batch.last())
        }
    }

    /// What one scan period does to the chord, given whether it was engaged
    /// and the batch of the period: whether it is engaged afterwards, and the
    /// batch that is passed on.
    pub open spec fn step(&self, engaged: bool, batch: Seq<Event>) -> (bool, Seq<Event>) {
        if !engaged {
            if self.all_pressed_in(batch) {
                (true, self.outside(batch).push(press_at(self.trigger)))
            } else {
                (false, batch)
            }
        } else {
            if self.any_released_in(batch) {
                (false, self.outside(batch).push(release_at(self.trigger)))
            } else {
                (true, self.outside(batch))
            }
        }
    }

    /// Whether `pos` is one of the chord's members.
    pub fn has_member(&self, pos: (u8, u8)) -> (found: bool)
        ensures
            found == self.is_member(pos),
    {
        let mut i: usize = 0;
        while i < self.members.len()
            invariant
                i <= self.members@.len(),
                forall|k: int| 0 <= k < i ==> self.members@[k] != pos,
            decreases self.members@.len() - i,
        {
            let m = self.members[i];
            if m.0 == pos.0 && m.1 == pos.1 {
                return true;
            }
            i += 1;
        }
        false
    }

    /// Whether `batch` holds a press of every member.
    pub fn contains_chord(&self, batch: &Vec<Event>) -> (found: bool)
        ensures
            found == self.all_pressed_in(batch@),
    {
        let mut i: usize = 0;
        while i < self.members.len()
            invariant
                i <= self.members@.len(),
                forall|k: int|
                    0 <= k < i ==> batch@.contains(press_at(#[trigger] self.members@[k])),
            decreases self.members@.len() - i,
        {
            let m = self.members[i];
            if !batch_contains(batch, Event::Press(m.0, m.1)) {
                return false;
            }
            i += 1;
        }
        true
    }

    /// Whether `batch` holds a release of some member.
    pub fn contains_release(&self, batch: &Vec<Event>) -> (found: bool)
        ensures
            found == self.any_released_in(batch@),
    {
        let mut i: usize = 0;
        while i < self.members.len()
            invariant
                i <= self.members@.len(),
                forall|k: int|
                    0 <= k < i ==> !batch@.contains(release_at(#[trigger] self.members@[k])),
            decreases self.members@.len() - i,
        {
            let m = self.members[i];
            if batch_contains(batch, Event::Release(m.0, m.1)) {
                return true;
            }
            i += 1;
        }
        false
    }

    /// The events of `batch` that are not at a member's position, in order.
    pub fn strip_members(&self, batch: &Vec<Event>) -> (kept: Vec<Event>)
        ensures
            kept@ == self.outside(batch@),
    {
        let mut kept: Vec<Event> = Vec::new();
        let mut i: usize = 0;
        while i < batch.len()
            invariant
                i <= batch@.len(),
                kept@ == self.outside(batch@.take(i as int)),
            decreases batch@.len() - i,
        {
            let e = batch[i];
            proof {
                assert(batch@.take(i + 1).drop_last() == batch@.take(i as int));
            }
            if !self.has_member(e.coord()) {
                kept.push(e);
            }
            i += 1;
        }
        proof {
            assert(batch@.take(batch@.len() as int) == batch@);
        }
        kept
    }

    /// Runs the chord over the batch of one scan period: returns whether the
    /// chord is engaged afterwards and the batch to pass on.
    pub fn tick(&self, engaged: bool, batch: Vec<Event>) -> (out: (bool, Vec<Event>))
        ensures
            out.0 == self.step(engaged, batch@).0,
            out.1@ == self.step(engaged, batch@).1,
    {
        if !engaged {
            if self.contains_chord(&batch) {
                let mut kept = self.strip_members(&batch);
                kept.push(Event::Press(self.trigger.0, self.trigger.1));
                (true, kept)
            } else {
                (false, batch)
            }
        } else {
            let mut kept = self.strip_members(&batch);
            if self.contains_release(&batch) {
                kept.push(Event::Release(self.trigger.0, self.trigger.1));
                (false, kept)
            } else {
                (true, kept)
            }
        }
    }
}

/// Whether `batch` holds the event `e`.
pub fn batch_contains(batch: &Vec<Event>, e: Event) -> (found: bool)
    ensures
        found == batch@.contains(e),
{
    let mut i: usize = 0;
    while i < batch.len()
        invariant
            i <= batch@.len(),
            forall|k: int| 0 <= k < i ==> batch@[k] != e,
        decreases batch@.len() - i,
    {
        if batch[i] == e {
            return true;
        }
        i += 1;
    }
    false
}

/// What is wrong with chord `i` of `chords`, if anything.
pub open spec fn fault_of(chords: Seq<ChordDef>, i: int) -> Option<ChordError> {
    if chords[i].members@.len() < 2 {
        Some(ChordError::TooFewMembers(i as usize))
    } else if exists|j: int| 0 <= j < chords.len() && (#[trigger] chords[j]).is_member(chords[i].trigger) {
        Some(ChordError::TriggerIsMember(i as usize))
    } else {
        None
    }
}

/// Whether a list of chords can be detected together: every chord has at
/// least two members, and no trigger is a member of any chord.
pub open spec fn usable(chords: Seq<ChordDef>) -> bool {
    forall|i: int| 0 <= i < chords.len() ==> #[trigger] fault_of(chords, i) is None
}

/// The flags and the batch after the first `n` chords have seen the batch,
/// each chord taking what the one before it passed on.
pub open spec fn detect(chords: Seq<ChordDef>, engaged: Seq<bool>, batch: Seq<Event>, n: nat) -> (
    Seq<bool>,
    Seq<Event>,
)
    decreases n,
{
    if n == 0 {
        (engaged, batch)
    } else {
        let k = (n - 1) as nat;
        let earlier = detect(chords, engaged, batch, k);
        let this = chords[k as int].step(earlier.0[k as int], earlier.1);
        (earlier.0.update(k as int, this.0), this.1)
    }
}

/// The chord detector: the configured chords and which of them are engaged.
pub struct Chording {
    chords: Vec<ChordDef>,
    engaged: Vec<bool>,
}

impl Chording {
    /// The configured chords.
    pub closed spec fn chords(&self) -> Seq<ChordDef> {
        self.chords@
    }

    /// For each chord, whether it is engaged.
    pub closed spec fn engaged(&self) -> Seq<bool> {
        self.engaged@
    }

    /// What every detector satisfies.
    pub open spec fn wf(&self) -> bool {
        &&& usable(self.chords())
        &&& self.engaged().len() == self.chords().len()
    }

    /// A detector for `chords`, none of them engaged. The list is refused
    /// with the fault of the first chord that has one.
    pub fn new(chords: Vec<ChordDef>) -> (made: Result<Chording, ChordError>)
        ensures
            match made {
                Ok(c) => {
                    &&& usable(chords@)
                    &&& c.wf()
                    &&& c.chords() == chords@
                    &&& forall|i: int| 0 <= i < c.engaged().len() ==> !c.engaged()[i]
                },
                Err(e) => exists|i: int|
                    {
                        &&& 0 <= i < chords@.len()
                        &&& #[trigger] fault_of(chords@, i) == Some(e)
                        &&& forall|k: int| 0 <= k < i ==> #[trigger] fault_of(chords@, k) is None
                    },
            },
    {
        let mut engaged: Vec<bool> = Vec::new();
        let mut i: usize = 0;
        while i < chords.len()
            invariant
                i <= chords@.len(),
                engaged@.len() == i,
                forall|k: int| 0 <= k < i ==> !engaged@[k],
                forall|k: int| 0 <= k < i ==> #[trigger] fault_of(chords@, k) is None,
            decreases chords@.len() - i,
        {
            if chords[i].members.len() < 2 {
                assert(fault_of(chords@, i as int) == Some(ChordError::TooFewMembers(i)));
                return Err(ChordError::TooFewMembers(i));
            }
            let trigger = chords[i].trigger;
            let mut j: usize = 0;
            while j < chords.len()
                invariant
                    i < chords@.len(),
                    j <= chords@.len(),
                    trigger == chords@[i as int].trigger,
                    chords@[i as int].members@.len() >= 2,
                    forall|k: int| 0 <= k < j ==> !(#[trigger] chords@[k]).is_member(trigger),
                    forall|k: int| 0 <= k < i ==> #[trigger] fault_of(chords@, k) is None,
                decreases chords@.len() - j,
            {
                if chords[j].has_member(trigger) {
                    assert(fault_of(chords@, i as int) == Some(ChordError::TriggerIsMember(i)));
                    return Err(ChordError::TriggerIsMember(i));
                }
                j += 1;
            }
            engaged.push(false);
            i += 1;
        }
        Ok(Chording { chords, engaged })
    }

    /// Whether chord `i` is engaged.
    pub fn is_engaged(&self, i: usize) -> (b: bool)
        requires
            self.wf(),
            i < self.chords().len(),
        ensures
            b == self.engaged()[i as int],
    {
        self.engaged[i]
    }

    /// The number of configured chords.
    pub fn len(&self) -> (n: usize)
        ensures
            n == self.chords().len(),
    {
        self.chords.len()
    }

    /// Takes the batch of events of one scan period and returns the batch
    /// to pass on: each chord in turn withholds its members' events and adds
    /// at most one event at its trigger.
    pub fn tick(&mut self, events: Vec<Event>) -> (out: Vec<Event>)
        requires
            old(self).wf(),
        ensures
            final(self).wf(),
            final(self).chords() == old(self).chords(),
            final(self).engaged() == detect(
                old(self).chords(),
                old(self).engaged(),
                events@,
                old(self).chords().len(),
            ).0,
            out@ == detect(
                old(self).chords(),
                old(self).engaged(),
                events@,
                old(self).chords().len(),
            ).1,
    {
        let ghost chords0 = self.chords@;
        let ghost engaged0 = self.engaged@;
        let ghost events0 = events@;
        let mut batch = events;
        let mut i: usize = 0;
        while i < self.chords.len()
            invariant
                i <= chords0.len(),
                self.chords@ == chords0,
                self.engaged@.len() == chords0.len(),
                self.engaged@ == detect(chords0, engaged0, events0, i as nat).0,
                batch@ == detect(chords0, engaged0, events0, i as nat).1,
            decreases chords0.len() - i,
        {
            let was = self.engaged[i];
            let (now, passed) = self.chords[i].tick(was, batch);
            self.engaged[i] = now;
            batch = passed;
            i += 1;
        }
        batch
    }
}

/// What a chord passes on holds no event at a member's position, and only
/// events of the batch it was given.
pub proof fn lemma_outside(chord: ChordDef, batch: Seq<Event>)
    ensures
        forall|e: Event| #[trigger]
            chord.outside(batch).contains(e) <==> batch.contains(e) && !chord.is_member(e.position()),
    decreases batch.len(),
{
    if batch.len() > 0 {
        let head = batch.drop_last();
        lemma_outside(chord, head);
        assert forall|e: Event| #[trigger]
            chord.outside(batch).contains(e) <==> batch.contains(e) && !chord.is_member(
                e.position(),
            ) by {
            if chord.outside(batch).contains(e) {
                let i = choose|i: int| 0 <= i < chord.outside(batch).len() && chord.outside(batch)[i] == e;
                if i < chord.outside(head).len() {
                    assert(chord.outside(head).contains(e));
                }
            }
            if batch.contains(e) && !chord.is_member(e.position()) {
                let k = choose|k: int| 0 <= k < batch.len() && batch[k] == e;
                if k < head.len() {
                    assert(head[k] == e);
                    assert(chord.outside(head).contains(e));
                    let i = choose|i: int| 0 <= i < chord.outside(head).len() && chord.outside(head)[i] == e;
                    assert(chord.outside(batch)[i] == e);
                } else {
                    assert(chord.outside(batch)[chord.outside(batch).len() - 1] == e);
                }
            }
        }
    }
}

/// Pressing all members of a chord together gives one press at the
/// trigger and nothing at the members: when the batch of one period holds a
/// press of every member of a chord that is not engaged, the chord becomes
/// engaged, and what it passes on is the events of the batch away from its
/// members followed by one press of the trigger.
pub proof fn lemma_pressing_together_engages(chord: ChordDef, batch: Seq<Event>)
    requires
        !chord.is_member(chord.trigger),
        chord.all_pressed_in(batch),
    ensures
        chord.step(false, batch).0,
        chord.step(false, batch).1 == chord.outside(batch).push(press_at(chord.trigger)),
        forall|e: Event| #[trigger]
            chord.step(false, batch).1.contains(e) ==> !chord.is_member(e.position()),
        forall|e: Event| #[trigger]
            chord.step(false, batch).1.contains(e) ==> batch.contains(e) || e == press_at(chord.trigger),
{
    lemma_outside(chord, batch);
    let kept = chord.outside(batch);
    let out = chord.step(false, batch).1;
    assert forall|e: Event| #[trigger] out.contains(e) implies (!chord.is_member(e.position()) && (
        batch.contains(e) || e == press_at(chord.trigger))) by {
        let i = choose|i: int| 0 <= i < out.len() && out[i] == e;
        if i < kept.len() {
            assert(kept.contains(e));
        }
    }
}

/// Releasing a member of an engaged chord gives the release of the
/// trigger and never the member's own: when the batch of one period holds a
/// release of a member of an engaged chord, the chord is no longer engaged,
/// and what it passes on is the events of the batch away from its members
/// followed by one release of the trigger.
pub proof fn lemma_releasing_member_disengages(chord: ChordDef, batch: Seq<Event>)
    requires
        !chord.is_member(chord.trigger),
        chord.any_released_in(batch),
    ensures
        !chord.step(true, batch).0,
        chord.step(true, batch).1 == chord.outside(batch).push(release_at(chord.trigger)),
        forall|e: Event| #[trigger]
            chord.step(true, batch).1.contains(e) ==> !chord.is_member(e.position()),
        forall|e: Event| #[trigger]
            chord.step(true, batch).1.contains(e) ==> batch.contains(e) || e == release_at(
                chord.trigger,
            ),
{
    lemma_outside(chord, batch);
    let kept = chord.outside(batch);
    let out = chord.step(true, batch).1;
    assert forall|e: Event| #[trigger] out.contains(e) implies (!chord.is_member(e.position()) && (
        batch.contains(e) || e == release_at(chord.trigger))) by {
        let i = choose|i: int| 0 <= i < out.len() && out[i] == e;
        if i < kept.len() {
            assert(kept.contains(e));
        }
    }
}

/// While a chord stays engaged its members give no events at all: an
/// engaged chord that sees no release of a member stays engaged and passes
/// on the batch without its members' events and without adding any.
pub proof fn lemma_engaged_chord_withholds(chord: ChordDef, batch: Seq<Event>)
    requires
        !chord.any_released_in(batch),
    ensures
        chord.step(true, batch).0,
        chord.step(true, batch).1 == chord.outside(batch),
        forall|e: Event| #[trigger]
            chord.step(true, batch).1.contains(e) ==> !chord.is_member(e.position()) && batch.contains(e),
{
    lemma_outside(chord, batch);
}

/// A detector with a single chord does what that chord's step says.
pub proof fn lemma_single_chord(chords: Seq<ChordDef>, engaged: Seq<bool>, batch: Seq<Event>)
    requires
        chords.len() == 1,
        engaged.len() == 1,
    ensures
        detect(chords, engaged, batch, 1).0 == seq![chords[0].step(engaged[0], batch).0],
        detect(chords, engaged, batch, 1).1 == chords[0].step(engaged[0], batch).1,
{
    reveal_with_fuel(detect, 2);
}

/// A chord passes on nothing but events of its batch and events at its
/// trigger.
pub proof fn lemma_step_adds_only_trigger(chord: ChordDef, engaged: bool, batch: Seq<Event>)
    ensures
        forall|e: Event| #[trigger]
            chord.step(engaged, batch).1.contains(e) ==> batch.contains(e) || e.position()
                == chord.trigger,
{
    lemma_outside(chord, batch);
    let kept = chord.outside(batch);
    let out = chord.step(engaged, batch).1;
    assert forall|e: Event| #[trigger] out.contains(e) implies batch.contains(e) || e.position()
        == chord.trigger by {
        let i = choose|i: int| 0 <= i < out.len() && out[i] == e;
        if out != batch && i < kept.len() {
            assert(kept.contains(e));
        }
    }
}

/// The first `n` chords leave the flags of the later chords alone.
proof fn lemma_detect_frame(chords: Seq<ChordDef>, engaged: Seq<bool>, batch: Seq<Event>, n: nat)
    requires
        engaged.len() == chords.len(),
        n <= chords.len(),
    ensures
        detect(chords, engaged, batch, n).0.len() == engaged.len(),
        forall|k: int| n <= k < chords.len() ==> detect(chords, engaged, batch, n).0[k] == engaged[k],
    decreases n,
{
    if n > 0 {
        lemma_detect_frame(chords, engaged, batch, (n - 1) as nat);
    }
}

/// Once chord `i` has seen the batch, the chords after it neither change
/// its flag nor let an event at one of its members through.
proof fn lemma_detect_later(
    chords: Seq<ChordDef>,
    engaged: Seq<bool>,
    batch: Seq<Event>,
    i: int,
    n: nat,
)
    requires
        usable(chords),
        engaged.len() == chords.len(),
        0 <= i < n <= chords.len(),
        engaged[i] || detect(chords, engaged, batch, (i + 1) as nat).0[i],
    ensures
        detect(chords, engaged, batch, n).0.len() == engaged.len(),
        detect(chords, engaged, batch, n).0[i] == detect(chords, engaged, batch, (i + 1) as nat).0[i],
        forall|e: Event| #[trigger]
            detect(chords, engaged, batch, n).1.contains(e) ==> !chords[i].is_member(e.position()),
    decreases n,
{
    let k = (n - 1) as nat;
    let earlier = detect(chords, engaged, batch, k);
    let chord = chords[k as int];
    lemma_detect_frame(chords, engaged, batch, k);
    assert(fault_of(chords, k as int) is None);
    if n == i + 1 {
        lemma_outside(chord, earlier.1);
        let kept = chord.outside(earlier.1);
        let out = chord.step(earlier.0[i], earlier.1).1;
        assert forall|e: Event| #[trigger] out.contains(e) implies !chord.is_member(e.position()) by {
            let x = choose|x: int| 0 <= x < out.len() && out[x] == e;
            if x < kept.len() {
                assert(kept.contains(e));
            }
        }
    } else {
        lemma_detect_later(chords, engaged, batch, i, k);
        lemma_step_adds_only_trigger(chord, earlier.0[k as int], earlier.1);
    }
}

/// Members of an engaged chord never get through, whatever other chords are
/// configured: in a period at whose start or end chord `i` is engaged, the
/// batch that leaves the detector holds no event at a member of chord `i`.
pub proof fn lemma_engaged_chord_hides_members(
    chords: Seq<ChordDef>,
    engaged: Seq<bool>,
    batch: Seq<Event>,
    i: int,
)
    requires
        usable(chords),
        engaged.len() == chords.len(),
        0 <= i < chords.len(),
        engaged[i] || detect(chords, engaged, batch, chords.len()).0[i],
    ensures
        forall|e: Event| #[trigger]
            detect(chords, engaged, batch, chords.len()).1.contains(e) ==> !chords[i].is_member(
                e.position(),
            ),
{
    if !engaged[i] && !detect(chords, engaged, batch, (i + 1) as nat).0[i] {
        lemma_detect_flag_settles(chords, engaged, batch, i, chords.len());
    }
    lemma_detect_later(chords, engaged, batch, i, chords.len());
}

/// The flag of chord `i` is settled once chord `i` has seen the batch.
proof fn lemma_detect_flag_settles(
    chords: Seq<ChordDef>,
    engaged: Seq<bool>,
    batch: Seq<Event>,
    i: int,
    n: nat,
)
    requires
        engaged.len() == chords.len(),
        0 <= i < n <= chords.len(),
    ensures
        detect(chords, engaged, batch, n).0[i] == detect(chords, engaged, batch, (i + 1) as nat).0[i],
    decreases n,
{
    if n > i + 1 {
        lemma_detect_frame(chords, engaged, batch, (n - 1) as nat);
        lemma_detect_flag_settles(chords, engaged, batch, i, (n - 1) as nat);
    }
}

/// What a chord keeps of a batch is no longer than the batch.
proof fn lemma_outside_len(chord: ChordDef, batch: Seq<Event>)
    ensures
        chord.outside(batch).len() <= batch.len(),
    decreases batch.len(),
{
    if batch.len() > 0 {
        lemma_outside_len(chord, batch.drop_last());
    }
}

/// Each chord adds at most one event in a period: the batch that leaves
/// the first `n` chords has at most `n` events more than the batch that
/// came in.
pub proof fn lemma_one_event_per_chord(chords: Seq<ChordDef>, engaged: Seq<bool>, batch: Seq<Event>, n: nat)
    requires
        engaged.len() == chords.len(),
        n <= chords.len(),
    ensures
        detect(chords, engaged, batch, n).1.len() <= batch.len() + n,
    decreases n,
{
    if n > 0 {
        let k = (n - 1) as nat;
        lemma_one_event_per_chord(chords, engaged, batch, k);
        lemma_outside_len(chords[k as int], detect(chords, engaged, batch, k).1);
    }
}

} // verus!
