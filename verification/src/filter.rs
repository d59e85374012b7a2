//! The debounce filter of the `keyberon` crate, and what is taken on trust
//! about it.
//!
//! Nothing in this module is proved. The filter is an opaque value; four
//! names stand for what it holds, and the contracts of the two wrappers say
//! over those names what `keyberon::debounce::Debouncer` does, as its source
//! shows it. Everything else in the crate is proved from these contracts.

use vstd::prelude::*;
use crate::debounce::{grid, DebounceState, RawMatrix};
use crate::event::Event;

verus! {

/// Makes `keyberon::debounce::Debouncer` known as a type whose inside is
/// not looked into.
#[verifier::external_type_specification]
#[verifier::external_body]
#[verifier::reject_recursive_types(T)]
pub struct ExDebouncer<T>(keyberon::debounce::Debouncer<T>);

/// The grid that a `keyberon::debounce::Debouncer` holds as current.
pub uninterp spec fn settled_grid(d: keyberon::debounce::Debouncer<[[bool; 3]; 3]>) -> Seq<Seq<bool>>;

/// The grid that a `keyberon::debounce::Debouncer` holds as the candidate
/// to become current.
pub uninterp spec fn pending_grid(d: keyberon::debounce::Debouncer<[[bool; 3]; 3]>) -> Seq<Seq<bool>>;

/// The count of updates that a `keyberon::debounce::Debouncer` has seen its
/// candidate for.
pub uninterp spec fn pending_streak(d: keyberon::debounce::Debouncer<[[bool; 3]; 3]>) -> nat;

/// The bounce count that a `keyberon::debounce::Debouncer` was made with.
pub uninterp spec fn bounce_limit(d: keyberon::debounce::Debouncer<[[bool; 3]; 3]>) -> nat;

/// The four things above as one state.
pub open spec fn model(d: keyberon::debounce::Debouncer<[[bool; 3]; 3]>) -> DebounceState {
    DebounceState {
        settled: settled_grid(d),
        pending: pending_grid(d),
        streak: pending_streak(d),
        limit: bounce_limit(d),
    }
}

/// `keyberon::debounce::Debouncer::new`. Believed of it, not proved: it
/// stores the two grids and the bounce count as given, and starts the count
/// of updates at zero.
#[verifier::external_body]
pub(crate) fn debouncer_new(cur: RawMatrix, new: RawMatrix, nb_bounce: u16) -> (d:
    keyberon::debounce::Debouncer<[[bool; 3]; 3]>)
    ensures
        settled_grid(d) == grid(cur),
        pending_grid(d) == grid(new),
        pending_streak(d) == 0,
        bounce_limit(d) == nb_bounce,
{
    keyberon::debounce::Debouncer::new(cur, new, nb_bounce)
}

/// `keyberon::debounce::Debouncer::events`, with each event it hands out
/// turned into an `Event` of this crate. Believed of it, not proved: a
/// sample equal to the current grid resets the count; any other sample
/// becomes the candidate with count one, or raises the count if it already
/// was the candidate; once the count exceeds the bounce count the candidate
/// becomes current, the old current grid becomes the candidate, and the
/// cells that changed are handed out row by row. The count is a `u16` and is
/// raised before it is compared, so it must not be at its maximum.
#[verifier::external_body]
pub(crate) fn debouncer_events(d: &mut keyberon::debounce::Debouncer<[[bool; 3]; 3]>, raw: RawMatrix) -> (events:
    Vec<Event>)
    requires
        pending_streak(*old(d)) < u16::MAX,
    ensures
        model(*final(d)) == model(*old(d)).step(grid(raw)),
        events@ == model(*old(d)).emitted(grid(raw)),
{
    d.events(raw).map(
        |e|
            match e {
                keyberon::layout::Event::Press(i, j) => Event::Press(i, j),
                keyberon::layout::Event::Release(i, j) => Event::Release(i, j),
            },
    ).collect()
}

} // verus!
