//! The layout engine: the state machine that turns key events into held
//! key codes, active layers and maintenance requests.
//!
//! A press is resolved against the active layers, the most recently
//! activated first, and what it did is recorded with its position. A
//! release undoes the record of its position and never consults the keymap.

use vstd::prelude::*;
use crate::event::Event;
use crate::keymap::{well_formed_layers, Action, CustomAction, Keymap, Layers};

verus! {

/// What a press put in place and its release takes away again.
#[derive(Clone, Copy, Debug, PartialEq, Eq, Structural)]
pub enum Held {
    /// The key with this key code is held.
    Key(u8),
    /// The layer with this number is active.
    Layer(usize),
}

/// The record of a press that has not been released yet.
#[derive(Clone, Copy, Debug, PartialEq, Eq, Structural)]
pub struct Resolved {
    /// Row of the switch.
    pub row: u8,
    /// Column of the switch.
    pub col: u8,
    /// What its press put in place.
    pub held: Held,
}

impl Resolved {
    /// The position of the switch.
    pub open spec fn position(self) -> (u8, u8) {
        (self.row, self.col)
    }
}

/// What a tick hands to the maintenance handler.
#[derive(Clone, Copy, Debug, PartialEq, Eq, Structural)]
pub enum CustomEvent {
    /// Nothing was requested.
    NoEvent,
    /// A key with this maintenance action was pressed.
    Press(CustomAction),
}

/// The layers that the records hold active, oldest first.
pub open spec fn held_layers(records: Seq<Resolved>) -> Seq<usize>
    decreases records.len(),
{
    if records.len() == 0 {
        Seq::empty()
    } else {
        match records.last().held {
            Held::Layer(l) => held_layers(records.drop_last()).push(l),
            Held::Key(_) => held_layers(records.drop_last()),
        }
    }
}

/// The key codes that the records hold, each once, in the order in which
/// they were first pressed.
pub open spec fn held_keys(records: Seq<Resolved>) -> Seq<u8>
    decreases records.len(),
{
    if records.len() == 0 {
        Seq::empty()
    } else {
        let earlier = held_keys(records.drop_last());
        match records.last().held {
            Held::Key(k) => if earlier.contains(k) {
                earlier
            } else {
                earlier.push(k)
            },
            Held::Layer(_) => earlier,
        }
    }
}

/// Whether there is a record for the position `pos`.
pub open spec fn resolved_at(records: Seq<Resolved>, pos: (u8, u8)) -> bool {
    exists|i: int| 0 <= i < records.len() && (#[trigger] records[i]).position() == pos
}

/// The records without those for the position `pos`, in order.
pub open spec fn without(records: Seq<Resolved>, pos: (u8, u8)) -> Seq<Resolved>
    decreases records.len(),
{
    if records.len() == 0 {
        Seq::empty()
    } else if records.last().position() == pos {
        without(records.drop_last(), pos)
    } else {
        without(records.drop_last(), pos).push(records.last())
    }
}

/// What the lowest `n` layers of `stack` make of the position: the entry of
/// the topmost of them that is not transparent, or `NoOp` if there is none.
pub open spec fn lookup_in(layers: Layers, stack: Seq<usize>, row: int, col: int, n: nat) -> Action
    decreases n,
{
    if n == 0 {
        Action::NoOp
    } else {
        let a = layers[stack[n - 1] as int][row][col];
        if a is Trans {
            lookup_in(layers, stack, row, col, (n - 1) as nat)
        } else {
            a
        }
    }
}

/// The state of the layout engine.
pub struct LayoutState {
    /// The keymap.
    pub layers: Layers,
    /// The layer at the bottom of the active layers.
    pub base: usize,
    /// The presses that have not been released, oldest first.
    pub resolved: Seq<Resolved>,
    /// The maintenance actions that no tick has handed out yet, oldest first.
    pub pending: Seq<CustomAction>,
}

impl LayoutState {
    /// The active layers from the base layer up to the one activated last.
    pub open spec fn active_layers(self) -> Seq<usize> {
        seq![self.base] + held_layers(self.resolved)
    }

    /// What a press at `pos` would do now.
    pub open spec fn lookup(self, pos: (u8, u8)) -> Action {
        if pos.0 < 3 && pos.1 < 3 {
            lookup_in(
                self.layers,
                self.active_layers(),
                pos.0 as int,
                pos.1 as int,
                self.active_layers().len(),
            )
        } else {
            Action::NoOp
        }
    }

    /// The state after a press at `pos`. A press at a position that has a
    /// record already changes nothing.
    pub open spec fn press(self, pos: (u8, u8)) -> LayoutState {
        if resolved_at(self.resolved, pos) {
            self
        } else {
            match self.lookup(pos) {
                Action::KeyCode(k) => LayoutState {
                    resolved: self.resolved.push(Resolved { row: pos.0, col: pos.1, held: Held::Key(k) }),
                    ..self
                },
                Action::Layer(l) => LayoutState {
                    resolved: self.resolved.push(
                        Resolved { row: pos.0, col: pos.1, held: Held::Layer(l) },
                    ),
                    ..self
                },
                Action::Custom(a) => LayoutState { pending: self.pending.push(a), ..self },
                Action::NoOp => self,
                Action::Trans => self,
            }
        }
    }

    /// The state after a release at `pos`.
    pub open spec fn release(self, pos: (u8, u8)) -> LayoutState {
        LayoutState { resolved: without(self.resolved, pos), ..self }
    }

    /// The state after the event `e`.
    pub open spec fn event(self, e: Event) -> LayoutState {
        match e {
            Event::Press(r, c) => self.press((r, c)),
            Event::Release(r, c) => self.release((r, c)),
        }
    }

    /// The state after a tick, and what the tick hands out: the oldest
    /// pending maintenance action, if there is one.
    pub open spec fn tick(self) -> (LayoutState, CustomEvent) {
        if self.pending.len() > 0 {
            (
                LayoutState { pending: self.pending.drop_first(), ..self },
                CustomEvent::Press(self.pending[0]),
            )
        } else {
            (self, CustomEvent::NoEvent)
        }
    }

    /// The key codes that are held.
    pub open spec fn keycodes(self) -> Seq<u8> {
        held_keys(self.resolved)
    }

    /// What every state of a layout engine satisfies.
    pub open spec fn well_formed(self) -> bool {
        &&& well_formed_layers(self.layers)
        &&& self.base < self.layers.len()
        &&& forall|i: int|
            0 <= i < self.resolved.len() ==> {
                &&& (#[trigger] self.resolved[i]).row < 3
                &&& self.resolved[i].col < 3
                &&& (self.resolved[i].held matches Held::Layer(l) ==> l < self.layers.len())
            }
        &&& forall|i: int, j: int|
            0 <= i < j < self.resolved.len() ==> (#[trigger] self.resolved[i]).position() != (
            #[trigger] self.resolved[j]).position()
    }
}

/// The layout engine.
pub struct Layout {
    keymap: Keymap,
    base: usize,
    resolved: Vec<Resolved>,
    pending: Vec<CustomAction>,
}

impl View for Layout {
    type V = LayoutState;

    closed spec fn view(&self) -> LayoutState {
        LayoutState {
            layers: self.keymap@,
            base: self.base,
            resolved: self.resolved@,
            pending: self.pending@,
        }
    }
}

impl Layout {
    /// What every layout engine satisfies.
    pub open spec fn wf(&self) -> bool {
        self@.well_formed()
    }

    /// A layout engine on `keymap` with `base` as the base layer, no key
    /// held and nothing pending; `None` if the keymap has no layer `base`.
    pub fn new(keymap: Keymap, base: usize) -> (made: Option<Layout>)
        requires
            keymap.wf(),
        ensures
            made is Some <==> base < keymap@.len(),
            made matches Some(layout) ==> {
                &&& layout.wf()
                &&& layout@ == (LayoutState {
                    layers: keymap@,
                    base: base,
                    resolved: Seq::empty(),
                    pending: Seq::empty(),
                })
            },
    {
        if base < keymap.depth() {
            Some(Layout { keymap, base, resolved: Vec::new(), pending: Vec::new() })
        } else {
            None
        }
    }

    /// The base layer.
    pub fn base_layer(&self) -> (base: usize)
        ensures
            base == self@.base,
    {
        self.base
    }

    /// The active layers from the base layer up to the one activated last.
    pub fn active_layers(&self) -> (stack: Vec<usize>)
        requires
            self.wf(),
        ensures
            stack@ == self@.active_layers(),
            forall|i: int| 0 <= i < stack@.len() ==> stack@[i] < self@.layers.len(),
    {
        let mut stack: Vec<usize> = Vec::new();
        stack.push(self.base);
        let mut i: usize = 0;
        while i < self.resolved.len()
            invariant
                self.wf(),
                i <= self.resolved@.len(),
                stack@ == seq![self.base] + held_layers(self.resolved@.take(i as int)),
                forall|k: int| 0 <= k < stack@.len() ==> stack@[k] < self.keymap@.len(),
            decreases self.resolved@.len() - i,
        {
            proof {
                assert(self.resolved@.take(i + 1).drop_last() == self.resolved@.take(i as int));
            }
            match self.resolved[i].held {
                Held::Layer(l) => {
                    stack.push(l);
                },
                Held::Key(_) => {},
            }
            i += 1;
        }
        proof {
            assert(self.resolved@.take(self.resolved@.len() as int) == self.resolved@);
        }
        stack
    }

    /// Whether the position has a press on record.
    pub fn is_resolved(&self, row: u8, col: u8) -> (found: bool)
        ensures
            found == resolved_at(self@.resolved, (row, col)),
    {
        let mut i: usize = 0;
        while i < self.resolved.len()
            invariant
                i <= self.resolved@.len(),
                forall|k: int| 0 <= k < i ==> (#[trigger] self.resolved@[k]).position() != (row, col),
            decreases self.resolved@.len() - i,
        {
            if self.resolved[i].row == row && self.resolved[i].col == col {
                return true;
            }
            i += 1;
        }
        false
    }

    /// What a press at `(row, col)` would do now: the entry of the topmost
    /// active layer that is not transparent there.
    pub fn lookup(&self, row: u8, col: u8) -> (a: Action)
        requires
            self.wf(),
        ensures
            a == self@.lookup((row, col)),
    {
        if !(row < 3 && col < 3) {
            return Action::NoOp;
        }
        let stack = self.active_layers();
        let mut n: usize = stack.len();
        while n > 0
            invariant
                self.wf(),
                row < 3,
                col < 3,
                n <= stack@.len(),
                stack@ == self@.active_layers(),
                forall|i: int| 0 <= i < stack@.len() ==> stack@[i] < self.keymap@.len(),
                self@.lookup((row, col)) == lookup_in(
                    self.keymap@,
                    stack@,
                    row as int,
                    col as int,
                    n as nat,
                ),
            decreases n,
        {
            let a = self.keymap.get(stack[n - 1], row, col);
            match a {
                Action::Trans => {
                    n -= 1;
                },
                _ => {
                    return a;
                },
            }
        }
        Action::NoOp
    }

    /// Applies a key event: a press is resolved and recorded, a release
    /// undoes the record of its position.
    pub fn event(&mut self, e: Event)
        requires
            old(self).wf(),
        ensures
            final(self).wf(),
            final(self)@ == old(self)@.event(e),
    {
        match e {
            Event::Press(row, col) => {
                proof {
                    lemma_press_keeps_well_formed(self@, (row, col));
                }
                if !self.is_resolved(row, col) {
                    match self.lookup(row, col) {
                        Action::KeyCode(k) => {
                            self.resolved.push(Resolved { row, col, held: Held::Key(k) });
                        },
                        Action::Layer(l) => {
                            self.resolved.push(Resolved { row, col, held: Held::Layer(l) });
                        },
                        Action::Custom(a) => {
                            self.pending.push(a);
                        },
                        Action::NoOp => {},
                        Action::Trans => {},
                    }
                }
            },
            Event::Release(row, col) => {
                proof {
                    lemma_release_keeps_well_formed(self@, (row, col));
                }
                let mut kept: Vec<Resolved> = Vec::new();
                let mut i: usize = 0;
                while i < self.resolved.len()
                    invariant
                        i <= self.resolved@.len(),
                        kept@ == without(self.resolved@.take(i as int), (row, col)),
                    decreases self.resolved@.len() - i,
                {
                    proof {
                        assert(self.resolved@.take(i + 1).drop_last() == self.resolved@.take(i as int));
                    }
                    let r = self.resolved[i];
                    if !(r.row == row && r.col == col) {
                        kept.push(r);
                    }
                    i += 1;
                }
                proof {
                    assert(self.resolved@.take(self.resolved@.len() as int) == self.resolved@);
                }
                self.resolved = kept;
            },
        }
    }

    /// Marks the passing of one scan period and hands out the oldest
    /// pending maintenance action, if there is one.
    pub fn tick(&mut self) -> (custom: CustomEvent)
        requires
            old(self).wf(),
        ensures
            final(self).wf(),
            final(self)@ == old(self)@.tick().0,
            custom == old(self)@.tick().1,
    {
        if self.pending.len() > 0 {
            let a = self.pending.remove(0);
            CustomEvent::Press(a)
        } else {
            CustomEvent::NoEvent
        }
    }

    /// The key codes that are held, each once, in the order in which they
    /// were first pressed.
    pub fn keycodes(&self) -> (codes: Vec<u8>)
        ensures
            codes@ == self@.keycodes(),
    {
        let mut codes: Vec<u8> = Vec::new();
        let mut i: usize = 0;
        while i < self.resolved.len()
            invariant
                i <= self.resolved@.len(),
                codes@ == held_keys(self.resolved@.take(i as int)),
            decreases self.resolved@.len() - i,
        {
            proof {
                assert(self.resolved@.take(i + 1).drop_last() == self.resolved@.take(i as int));
            }
            match self.resolved[i].held {
                Held::Key(k) => {
                    if !holds_code(&codes, k) {
                        codes.push(k);
                    }
                },
                Held::Layer(_) => {},
            }
            i += 1;
        }
        proof {
            assert(self.resolved@.take(self.resolved@.len() as int) == self.resolved@);
        }
        codes
    }
}

/// Whether `codes` holds the key code `k`.
pub fn holds_code(codes: &Vec<u8>, k: u8) -> (found: bool)
    ensures
        found == codes@.contains(k),
{
    let mut i: usize = 0;
    while i < codes.len()
        invariant
            i <= codes@.len(),
            forall|j: int| 0 <= j < i ==> codes@[j] != k,
        decreases codes@.len() - i,
    {
        if codes[i] == k {
            return true;
        }
        i += 1;
    }
    false
}

/// What a lookup returns is `NoOp` or an entry of the keymap that is not
/// transparent.
pub proof fn lemma_lookup_in(layers: Layers, stack: Seq<usize>, row: int, col: int, n: nat)
    requires
        well_formed_layers(layers),
        n <= stack.len(),
        forall|i: int| 0 <= i < stack.len() ==> stack[i] < layers.len(),
        0 <= row < 3,
        0 <= col < 3,
    ensures
        !(lookup_in(layers, stack, row, col, n) is Trans),
        crate::keymap::target_exists(layers.len(), lookup_in(layers, stack, row, col, n)),
    decreases n,
{
    if n > 0 {
        lemma_lookup_in(layers, stack, row, col, (n - 1) as nat);
    }
}

/// The layers that well-formed records hold active all exist.
pub proof fn lemma_held_layers_exist(s: LayoutState)
    requires
        s.well_formed(),
    ensures
        forall|i: int| 0 <= i < s.active_layers().len() ==> #[trigger] s.active_layers()[i] < s.layers.len(),
{
    lemma_held_layers_bound(s.resolved, s.layers.len());
}

proof fn lemma_held_layers_bound(records: Seq<Resolved>, depth: nat)
    requires
        forall|i: int|
            0 <= i < records.len() ==> ((#[trigger] records[i]).held matches Held::Layer(l) ==> l < depth),
    ensures
        forall|i: int| 0 <= i < held_layers(records).len() ==> #[trigger] held_layers(records)[i] < depth,
    decreases records.len(),
{
    if records.len() > 0 {
        let earlier = records.drop_last();
        assert forall|i: int| 0 <= i < earlier.len() implies ((#[trigger] earlier[i]).held matches Held::Layer(
            l,
        ) ==> l < depth) by {}
        lemma_held_layers_bound(earlier, depth);
        assert forall|i: int| 0 <= i < held_layers(records).len() implies #[trigger] held_layers(
            records,
        )[i] < depth by {
            assert(i < held_layers(earlier).len() ==> held_layers(records)[i] == held_layers(earlier)[i]);
        }
    }
}

/// A press keeps a state well formed.
pub proof fn lemma_press_keeps_well_formed(s: LayoutState, pos: (u8, u8))
    requires
        s.well_formed(),
    ensures
        s.press(pos).well_formed(),
{
    if pos.0 < 3 && pos.1 < 3 {
        lemma_held_layers_exist(s);
        lemma_lookup_in(
            s.layers,
            s.active_layers(),
            pos.0 as int,
            pos.1 as int,
            s.active_layers().len(),
        );
    }
}

/// What is left of the records after a release: the records at other
/// positions, in their order.
pub proof fn lemma_without(records: Seq<Resolved>, pos: (u8, u8))
    ensures
        without(records, pos).len() <= records.len(),
        forall|r: Resolved| #[trigger]
            without(records, pos).contains(r) <==> records.contains(r) && r.position() != pos,
        (forall|i: int, j: int|
            0 <= i < j < records.len() ==> (#[trigger] records[i]).position() != (
            #[trigger] records[j]).position()) ==> (forall|i: int, j: int|
            0 <= i < j < without(records, pos).len() ==> (#[trigger] without(records, pos)[i]).position()
                != (#[trigger] without(records, pos)[j]).position()),
    decreases records.len(),
{
    if records.len() > 0 {
        let earlier = records.drop_last();
        let out = without(records, pos);
        let kept = without(earlier, pos);
        lemma_without(earlier, pos);
        assert forall|r: Resolved| #[trigger]
            out.contains(r) <==> records.contains(r) && r.position() != pos by {
            if out.contains(r) {
                let i = choose|i: int| 0 <= i < out.len() && out[i] == r;
                if i < kept.len() {
                    assert(kept.contains(r));
                }
            }
            if records.contains(r) && r.position() != pos {
                let k = choose|k: int| 0 <= k < records.len() && records[k] == r;
                if k < earlier.len() {
                    assert(earlier[k] == r);
                    assert(kept.contains(r));
                    let i = choose|i: int| 0 <= i < kept.len() && kept[i] == r;
                    assert(out[i] == r);
                } else {
                    assert(out[out.len() - 1] == r);
                }
            }
        }
        if forall|i: int, j: int|
            0 <= i < j < records.len() ==> (#[trigger] records[i]).position() != (
            #[trigger] records[j]).position() {
            assert forall|i: int, j: int| 0 <= i < j < earlier.len() implies (
            #[trigger] earlier[i]).position() != (#[trigger] earlier[j]).position() by {}
            assert forall|i: int, j: int| 0 <= i < j < out.len() implies (#[trigger] out[i]).position() != (
            #[trigger] out[j]).position() by {
                if j == kept.len() {
                    assert(kept.contains(out[i]));
                }
            }
        }
    }
}

/// A release keeps a state well formed.
pub proof fn lemma_release_keeps_well_formed(s: LayoutState, pos: (u8, u8))
    requires
        s.well_formed(),
    ensures
        s.release(pos).well_formed(),
{
    lemma_without(s.resolved, pos);
    let out = without(s.resolved, pos);
    assert forall|i: int| 0 <= i < out.len() implies {
        &&& (#[trigger] out[i]).row < 3
        &&& out[i].col < 3
        &&& (out[i].held matches Held::Layer(l) ==> l < s.layers.len())
    } by {
        assert(out.contains(out[i]));
    }
}

/// Records without one for `pos` are left as they are by a release at `pos`.
pub proof fn lemma_without_absent(records: Seq<Resolved>, pos: (u8, u8))
    requires
        !resolved_at(records, pos),
    ensures
        without(records, pos) == records,
    decreases records.len(),
{
    if records.len() > 0 {
        let earlier = records.drop_last();
        assert forall|i: int| 0 <= i < earlier.len() implies (#[trigger] earlier[i]).position() != pos by {}
        lemma_without_absent(earlier, pos);
    }
}

/// Pressing a layer-hold key activates its layer on top of the others: if
/// a position without a record resolves to `Layer(l)`, then after its press
/// the active layers are the former ones followed by `l`.
pub proof fn lemma_layer_hold_activates(s: LayoutState, pos: (u8, u8), l: usize)
    requires
        !resolved_at(s.resolved, pos),
        s.lookup(pos) == Action::Layer(l),
    ensures
        s.press(pos).active_layers() == s.active_layers().push(l),
        s.press(pos).pending == s.pending,
{
    let record = Resolved { row: pos.0, col: pos.1, held: Held::Layer(l) };
    assert(s.resolved.push(record).drop_last() =~= s.resolved);
}

/// The layer activated last decides wherever it is not transparent, and
/// where it is transparent the layers below it decide as if it were not
/// there.
pub proof fn lemma_top_layer_decides(s: LayoutState, pos: (u8, u8))
    requires
        pos.0 < 3,
        pos.1 < 3,
    ensures
        ({
            let stack = s.active_layers();
            let entry = s.layers[stack.last() as int][pos.0 as int][pos.1 as int];
            s.lookup(pos) == if entry is Trans {
                lookup_in(s.layers, stack, pos.0 as int, pos.1 as int, (stack.len() - 1) as nat)
            } else {
                entry
            }
        }),
{
}

/// A position that every active layer leaves transparent does nothing: its
/// lookup gives `NoOp`, and its press changes nothing.
pub proof fn lemma_transparent_everywhere_is_no_op(s: LayoutState, pos: (u8, u8))
    requires
        pos.0 < 3,
        pos.1 < 3,
        forall|i: int|
            0 <= i < s.active_layers().len() ==> s.layers[(#[trigger] s.active_layers()[i]) as int][pos.0 as int][pos.1 as int]
                is Trans,
    ensures
        s.lookup(pos) == Action::NoOp,
        s.press(pos) == s,
{
    lemma_all_transparent(s.layers, s.active_layers(), pos.0 as int, pos.1 as int, s.active_layers().len());
}

proof fn lemma_all_transparent(layers: Layers, stack: Seq<usize>, row: int, col: int, n: nat)
    requires
        n <= stack.len(),
        forall|i: int| 0 <= i < stack.len() ==> layers[(#[trigger] stack[i]) as int][row][col] is Trans,
    ensures
        lookup_in(layers, stack, row, col, n) == Action::NoOp,
    decreases n,
{
    if n > 0 {
        lemma_all_transparent(layers, stack, row, col, (n - 1) as nat);
    }
}

/// While a layer-hold key is down, a press resolves by the held layer and
/// not by the layers below it: if a position without a record resolves to
/// `Layer(l)`, then after its press every position of the matrix that layer
/// `l` maps to something other than `Trans` resolves to what layer `l` says.
pub proof fn lemma_held_layer_overrides(s: LayoutState, hold: (u8, u8), l: usize, pos: (u8, u8))
    requires
        !resolved_at(s.resolved, hold),
        s.lookup(hold) == Action::Layer(l),
        pos.0 < 3,
        pos.1 < 3,
        !(s.layers[l as int][pos.0 as int][pos.1 as int] is Trans),
    ensures
        s.press(hold).lookup(pos) == s.layers[l as int][pos.0 as int][pos.1 as int],
{
    lemma_layer_hold_activates(s, hold, l);
    lemma_top_layer_decides(s.press(hold), pos);
}

/// A release gives back what its press took: after the press and the
/// release of a position without a record, the records, the active layers
/// and what every position resolves to are what they were before.
pub proof fn lemma_release_undoes_press(s: LayoutState, pos: (u8, u8))
    requires
        !resolved_at(s.resolved, pos),
    ensures
        s.press(pos).release(pos).resolved == s.resolved,
        s.press(pos).release(pos).active_layers() == s.active_layers(),
        forall|q: (u8, u8)| #[trigger] s.press(pos).release(pos).lookup(q) == s.lookup(q),
{
    lemma_without_absent(s.resolved, pos);
    let after = s.press(pos).resolved;
    if after != s.resolved {
        assert(after.drop_last() =~= s.resolved);
    }
}

/// A layer held while another key is pressed and released leaves no trace:
/// after the press of a layer-hold key, the press and the release of another
/// key, and the release of the layer-hold key, the records, the active layers
/// and what every position resolves to are what they were before. Only a
/// maintenance action that the other key asked for stays pending.
pub proof fn lemma_layer_round_trip(s: LayoutState, hold: (u8, u8), l: usize, pos: (u8, u8))
    requires
        hold != pos,
        !resolved_at(s.resolved, hold),
        !resolved_at(s.resolved, pos),
        s.lookup(hold) == Action::Layer(l),
    ensures
        s.press(hold).press(pos).release(pos).release(hold).resolved == s.resolved,
        s.press(hold).press(pos).release(pos).release(hold).active_layers() == s.active_layers(),
        forall|q: (u8, u8)| #[trigger]
            s.press(hold).press(pos).release(pos).release(hold).lookup(q) == s.lookup(q),
{
    let held = s.press(hold);
    assert(!resolved_at(held.resolved, pos)) by {
        assert forall|i: int| 0 <= i < held.resolved.len() implies (#[trigger] held.resolved[i]).position()
            != pos by {
            if i < s.resolved.len() {
                assert(held.resolved[i] == s.resolved[i]);
            }
        }
    }
    lemma_release_undoes_press(held, pos);
    lemma_release_undoes_press(s, hold);
}

/// Releases do not get in each other's way: two releases lead to the same
/// state in either order.
pub proof fn lemma_releases_commute(s: LayoutState, a: (u8, u8), b: (u8, u8))
    ensures
        s.release(a).release(b) == s.release(b).release(a),
{
    lemma_without_commutes(s.resolved, a, b);
}

proof fn lemma_without_commutes(records: Seq<Resolved>, a: (u8, u8), b: (u8, u8))
    ensures
        without(without(records, a), b) == without(without(records, b), a),
    decreases records.len(),
{
    if records.len() > 0 {
        let earlier = records.drop_last();
        let last = records.last();
        lemma_without_commutes(earlier, a, b);
        assert(without(earlier, a).push(last).drop_last() =~= without(earlier, a));
        assert(without(earlier, b).push(last).drop_last() =~= without(earlier, b));
    }
}

/// A release takes away exactly the record of its position, whatever was
/// pressed or released since the press: in a well-formed state the release
/// at the position of record `i` leaves the other records, in their order.
pub proof fn lemma_release_removes_one_record(s: LayoutState, i: int)
    requires
        s.well_formed(),
        0 <= i < s.resolved.len(),
    ensures
        s.release(s.resolved[i].position()).resolved == s.resolved.remove(i),
{
    lemma_without_distinct(s.resolved, i);
}

proof fn lemma_without_distinct(records: Seq<Resolved>, i: int)
    requires
        0 <= i < records.len(),
        forall|a: int, b: int|
            0 <= a < b < records.len() ==> (#[trigger] records[a]).position() != (
            #[trigger] records[b]).position(),
    ensures
        without(records, records[i].position()) == records.remove(i),
    decreases records.len(),
{
    let pos = records[i].position();
    let earlier = records.drop_last();
    let n = records.len() - 1;
    if i == n {
        assert forall|k: int| 0 <= k < earlier.len() implies (#[trigger] earlier[k]).position() != pos by {}
        lemma_without_absent(earlier, pos);
    } else {
        assert forall|a: int, b: int| 0 <= a < b < earlier.len() implies (#[trigger] earlier[a]).position() != (
        #[trigger] earlier[b]).position() by {}
        lemma_without_distinct(earlier, i);
    }
}

/// The number of layers that the records before record `i` hold active.
pub open spec fn layers_before(records: Seq<Resolved>, i: int) -> int {
    held_layers(records.take(i)).len() as int
}

/// Releasing a layer-hold key deactivates exactly its layer: if record `i`
/// holds a layer, the release at its position takes that one entry out of
/// the active layers and leaves the others in their order.
pub proof fn lemma_release_deactivates_one_layer(s: LayoutState, i: int)
    requires
        s.well_formed(),
        0 <= i < s.resolved.len(),
        s.resolved[i].held is Layer,
    ensures
        1 + layers_before(s.resolved, i) < s.active_layers().len(),
        s.active_layers()[1 + layers_before(s.resolved, i)] == s.resolved[i].held->Layer_0,
        s.release(s.resolved[i].position()).active_layers() == s.active_layers().remove(
            1 + layers_before(s.resolved, i),
        ),
{
    lemma_release_removes_one_record(s, i);
    lemma_held_layers_remove(s.resolved, i);
}

proof fn lemma_held_layers_remove(records: Seq<Resolved>, i: int)
    requires
        0 <= i < records.len(),
        records[i].held is Layer,
    ensures
        held_layers(records.take(i)).len() < held_layers(records).len(),
        held_layers(records)[held_layers(records.take(i)).len() as int] == records[i].held->Layer_0,
        held_layers(records.remove(i)) == held_layers(records).remove(
            held_layers(records.take(i)).len() as int,
        ),
    decreases records.len(),
{
    let earlier = records.drop_last();
    if i < records.len() - 1 {
        assert(earlier.take(i) =~= records.take(i));
        lemma_held_layers_remove(earlier, i);
        assert(records.remove(i).drop_last() =~= earlier.remove(i));
    } else {
        assert(records.take(i) =~= earlier);
        assert(records.remove(i) =~= earlier);
    }
}

/// A release of a key leaves the active layers alone.
pub proof fn lemma_key_release_keeps_layers(s: LayoutState, i: int)
    requires
        s.well_formed(),
        0 <= i < s.resolved.len(),
        s.resolved[i].held is Key,
    ensures
        s.release(s.resolved[i].position()).active_layers() == s.active_layers(),
{
    lemma_release_removes_one_record(s, i);
    lemma_held_layers_skip_key(s.resolved, i);
}

proof fn lemma_held_layers_skip_key(records: Seq<Resolved>, i: int)
    requires
        0 <= i < records.len(),
        records[i].held is Key,
    ensures
        held_layers(records.remove(i)) == held_layers(records),
    decreases records.len(),
{
    let earlier = records.drop_last();
    if i < records.len() - 1 {
        lemma_held_layers_skip_key(earlier, i);
        assert(records.remove(i).drop_last() =~= earlier.remove(i));
    } else {
        assert(records.remove(i) =~= earlier);
    }
}

/// The held key codes are exactly the key codes on record, each once.
pub proof fn lemma_held_keys(records: Seq<Resolved>)
    ensures
        held_keys(records).no_duplicates(),
        forall|k: u8| #[trigger]
            held_keys(records).contains(k) <==> exists|i: int|
                0 <= i < records.len() && (#[trigger] records[i]).held == Held::Key(k),
    decreases records.len(),
{
    if records.len() > 0 {
        let earlier = records.drop_last();
        let keys = held_keys(earlier);
        let out = held_keys(records);
        lemma_held_keys(earlier);
        assert forall|k: u8| #[trigger]
            out.contains(k) <==> exists|i: int|
                0 <= i < records.len() && (#[trigger] records[i]).held == Held::Key(k) by {
            if out.contains(k) {
                let x = choose|x: int| 0 <= x < out.len() && out[x] == k;
                if x < keys.len() {
                    assert(keys.contains(k));
                }
            }
            if exists|i: int| 0 <= i < records.len() && (#[trigger] records[i]).held == Held::Key(k) {
                let i = choose|i: int| 0 <= i < records.len() && (#[trigger] records[i]).held == Held::Key(k);
                if i < earlier.len() {
                    assert(earlier[i].held == Held::Key(k));
                    assert(keys.contains(k));
                    let x = choose|x: int| 0 <= x < keys.len() && keys[x] == k;
                    assert(out[x] == k);
                } else if !keys.contains(k) {
                    assert(out[out.len() - 1] == k);
                }
            }
        }
    }
}

} // verus!
