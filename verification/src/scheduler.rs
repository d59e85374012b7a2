//! The tasks of the keypad and the order in which one scan period runs them.
//!
//! The scan task owns the debouncer and the chord detector. The report task
//! owns the layout engine and the transport. A period runs the scan task on
//! the sample of the matrix, applies each event to the layout as it comes
//! out, runs the report task once, and names the deadline of the next period
//! as an absolute time.

use vstd::prelude::*;
use crate::chord::{detect, usable, ChordDef, ChordError, Chording};
use crate::debounce::{grid, DebounceState, Grid, MatrixDebouncer, RawMatrix};
use crate::event::Event;
use crate::keymap::{standard_keymap, standard_layers, Keymap};
use crate::layout::{Layout, LayoutState};
use crate::maintenance::{handle_custom, request_of, Maintenance};
use crate::report::{report_bytes, HidReport};
use crate::transport::{last_after, needs_wakeup, transmit_due, wakeup_due, Transport, UsbDeviceState};

verus! {

/// The scan period in ticks of the timer, which counts microseconds.
pub const TICK_PERIOD: u64 = 1000;

/// The number of equal samples in a row that make a change count.
pub const DEBOUNCE_THRESHOLD: u16 = 5;

/// The number of layers of the standard keymap that can serve as the base
/// layer: the layers from this number on are reached by layer-hold keys only.
pub const BASE_LAYERS: usize = 2;

/// The deadline `periods` periods after the deadline `start`, each deadline
/// taken from the one before it.
pub open spec fn deadline_after(start: int, periods: nat) -> int
    decreases periods,
{
    if periods == 0 {
        start
    } else {
        deadline_after(start, (periods - 1) as nat) + TICK_PERIOD
    }
}

/// The deadline that follows the deadline `previous`.
pub fn next_deadline(previous: u64) -> (next: u64)
    requires
        previous + TICK_PERIOD <= u64::MAX,
    ensures
        next == deadline_after(previous as int, 1),
        next == previous + TICK_PERIOD,
{
    assert(deadline_after(previous as int, 1) == deadline_after(previous as int, 0) + TICK_PERIOD);
    previous + TICK_PERIOD
}

/// Deadlines do not drift: the deadline after `periods` periods is the
/// first deadline plus that many whole periods, however late any period ran.
pub proof fn lemma_deadlines_do_not_drift(start: int, periods: nat)
    ensures
        deadline_after(start, periods) == start + periods * TICK_PERIOD,
    decreases periods,
{
    if periods > 0 {
        lemma_deadlines_do_not_drift(start, (periods - 1) as nat);
    }
}

/// The events that one sample of the matrix leads to: what the debouncer
/// gives, after every chord has seen it.
pub open spec fn scan_events(debounce: DebounceState, chords: Seq<ChordDef>, engaged: Seq<bool>, raw: Grid) -> Seq<
    Event,
> {
    detect(chords, engaged, debounce.emitted(raw), chords.len()).1
}

/// The chord flags after one sample of the matrix.
pub open spec fn scan_engaged(debounce: DebounceState, chords: Seq<ChordDef>, engaged: Seq<bool>, raw: Grid) -> Seq<
    bool,
> {
    detect(chords, engaged, debounce.emitted(raw), chords.len()).0
}

/// The layout after all of `events`, in order.
pub open spec fn apply_all(layout: LayoutState, events: Seq<Event>) -> LayoutState
    decreases events.len(),
{
    if events.len() == 0 {
        layout
    } else {
        apply_all(layout, events.drop_last()).event(events.last())
    }
}

/// The chord of the keypad: left and down together stand for the key at
/// the start of the bottom row.
pub fn standard_chords() -> (chords: Vec<ChordDef>)
    ensures
        chords@.len() == 1,
        chords@[0].trigger == (2u8, 0u8),
        chords@[0].members@ == seq![(1u8, 0u8), (1u8, 1u8)],
        usable(chords@),
{
    let mut members: Vec<(u8, u8)> = Vec::new();
    members.push((1, 0));
    members.push((1, 1));
    let mut chords: Vec<ChordDef> = Vec::new();
    chords.push(ChordDef { trigger: (2, 0), members });
    chords
}

/// The lowest task: it alone owns the debouncer and the chord detector.
pub struct ScanTask {
    debouncer: MatrixDebouncer,
    chording: Chording,
}

impl ScanTask {
    /// The state of the debouncer.
    pub closed spec fn debounce(&self) -> DebounceState {
        self.debouncer@
    }

    /// The configured chords.
    pub closed spec fn chords(&self) -> Seq<ChordDef> {
        self.chording.chords()
    }

    /// For each chord, whether it is engaged.
    pub closed spec fn engaged(&self) -> Seq<bool> {
        self.chording.engaged()
    }

    /// What every scan task satisfies.
    pub open spec fn wf(&self) -> bool {
        &&& self.debounce().well_formed()
        &&& usable(self.chords())
        &&& self.engaged().len() == self.chords().len()
    }

    /// A scan task with a fresh debouncer of the given threshold and a
    /// detector for `chords`; refused as the chords are.
    pub fn new(threshold: u16, chords: Vec<ChordDef>) -> (made: Result<ScanTask, ChordError>)
        ensures
            made is Ok <==> usable(chords@),
            made matches Ok(task) ==> {
                &&& task.wf()
                &&& task.chords() == chords@
                &&& forall|i: int| 0 <= i < task.engaged().len() ==> !task.engaged()[i]
                &&& task.debounce().settled == crate::debounce::blank()
                &&& task.debounce().pending == crate::debounce::blank()
                &&& task.debounce().streak == 0
                &&& task.debounce().threshold() == if threshold == 0 {
                    1
                } else {
                    threshold as nat
                }
            },
            made matches Err(e) ==> exists|i: int|
                {
                    &&& 0 <= i < chords@.len()
                    &&& #[trigger] crate::chord::fault_of(chords@, i) == Some(e)
                    &&& forall|k: int| 0 <= k < i ==> #[trigger] crate::chord::fault_of(chords@, k) is None
                },
    {
        match Chording::new(chords) {
            Ok(chording) => Ok(ScanTask { debouncer: MatrixDebouncer::new(threshold), chording }),
            Err(e) => Err(e),
        }
    }

    /// The scan task as the keypad is built: the standard debounce threshold
    /// and the standard chord.
    pub fn standard() -> (task: ScanTask)
        ensures
            task.wf(),
            task.chords().len() == 1,
            task.chords()[0].trigger == (2u8, 0u8),
            task.chords()[0].members@ == seq![(1u8, 0u8), (1u8, 1u8)],
            !task.engaged()[0],
            task.debounce().settled == crate::debounce::blank(),
            task.debounce().pending == crate::debounce::blank(),
            task.debounce().streak == 0,
            task.debounce().threshold() == DEBOUNCE_THRESHOLD,
    {
        ScanTask::new(DEBOUNCE_THRESHOLD, standard_chords()).unwrap()
    }

    /// Runs the sample of one period through the debouncer and the chord
    /// detector and returns the events of the period.
    pub fn tick(&mut self, raw: RawMatrix) -> (events: Vec<Event>)
        requires
            old(self).wf(),
        ensures
            final(self).wf(),
            final(self).debounce() == old(self).debounce().step(grid(raw)),
            final(self).chords() == old(self).chords(),
            final(self).engaged() == scan_engaged(
                old(self).debounce(),
                old(self).chords(),
                old(self).engaged(),
                grid(raw),
            ),
            events@ == scan_events(old(self).debounce(), old(self).chords(), old(self).engaged(), grid(raw)),
    {
        let debounced = self.debouncer.events(raw);
        self.chording.tick(debounced)
    }
}

/// What the report task decided in one period.
#[derive(Clone, Copy, Debug)]
pub struct TickOutcome {
    /// Whether the host is to be woken, before anything else.
    pub wakeup: bool,
    /// What the platform is asked to do, if anything.
    pub maintenance: Option<Maintenance>,
    /// The report to transmit, if one is to be transmitted.
    pub transmit: Option<HidReport>,
}

/// The mathematical form of a `TickOutcome`.
pub struct TickPlan {
    /// Whether the host is to be woken, before anything else.
    pub wakeup: bool,
    /// What the platform is asked to do, if anything.
    pub maintenance: Option<Maintenance>,
    /// The bytes to transmit, if a report is to be transmitted.
    pub transmit: Option<Seq<u8>>,
}

impl View for TickOutcome {
    type V = TickPlan;

    open spec fn view(&self) -> TickPlan {
        TickPlan {
            wakeup: self.wakeup,
            maintenance: self.maintenance,
            transmit: match self.transmit {
                Some(report) => Some(report@),
                None => None,
            },
        }
    }
}

/// Whether a request ends the run.
pub open spec fn ends_run(maintenance: Option<Maintenance>) -> bool {
    maintenance matches Some(m) && m.terminal()
}

/// What the report task makes of one period: the layout and the report
/// sent last after it, and what it decided. The layout ticks first. The
/// report is built from the keys held. A request that ends the run keeps the
/// report from being offered for transmission.
pub open spec fn report_tick(
    layout: LayoutState,
    last: Seq<u8>,
    usb: UsbDeviceState,
    wakeup_enabled: bool,
) -> (LayoutState, Seq<u8>, TickPlan) {
    let after = layout.tick().0;
    let report = report_bytes(after.keycodes());
    let maintenance = request_of(layout.tick().1, after.base);
    if ends_run(maintenance) {
        (after, last, TickPlan { wakeup: wakeup_due(report, usb, wakeup_enabled), maintenance, transmit: None })
    } else {
        (
            after,
            last_after(last, report, usb),
            TickPlan {
                wakeup: wakeup_due(report, usb, wakeup_enabled),
                maintenance,
                transmit: if transmit_due(last, report, usb) {
                    Some(report)
                } else {
                    None
                },
            },
        )
    }
}

/// The task above the scan task: it owns the layout engine and the
/// transport, which the event handler and the report tick share.
pub struct ReportTask {
    layout: Layout,
    transport: Transport,
}

impl ReportTask {
    /// The state of the layout engine.
    pub closed spec fn layout(&self) -> LayoutState {
        self.layout@
    }

    /// The bytes of the report sent last.
    pub closed spec fn last_sent(&self) -> Seq<u8> {
        self.transport@
    }

    /// What every report task satisfies.
    pub open spec fn wf(&self) -> bool {
        self.layout().well_formed()
    }

    /// A report task on `keymap` with `base` as the base layer that has
    /// sent nothing yet; `None` if the keymap has no layer `base`.
    pub fn new(keymap: Keymap, base: usize) -> (made: Option<ReportTask>)
        requires
            keymap.wf(),
        ensures
            made is Some <==> base < keymap@.len(),
            made matches Some(task) ==> {
                &&& task.wf()
                &&& task.layout() == (LayoutState {
                    layers: keymap@,
                    base: base,
                    resolved: Seq::empty(),
                    pending: Seq::empty(),
                })
                &&& task.last_sent() == Seq::new(8, |i: int| 0u8)
            },
    {
        match Layout::new(keymap, base) {
            Some(layout) => Some(ReportTask { layout, transport: Transport::new() }),
            None => None,
        }
    }

    /// The report task as the keypad is built: the standard keymap with
    /// layer `base` as the base layer; `None` unless `base` is one of the
    /// layers that can serve as the base layer.
    pub fn standard(base: usize) -> (made: Option<ReportTask>)
        ensures
            made is Some <==> base < BASE_LAYERS,
            made matches Some(task) ==> {
                &&& task.wf()
                &&& task.layout() == (LayoutState {
                    layers: standard_layers(),
                    base: base,
                    resolved: Seq::empty(),
                    pending: Seq::empty(),
                })
                &&& task.last_sent() == Seq::new(8, |i: int| 0u8)
            },
    {
        if base < BASE_LAYERS {
            ReportTask::new(standard_keymap(), base)
        } else {
            None
        }
    }

    /// Applies one key event to the layout.
    pub fn handle_event(&mut self, e: Event)
        requires
            old(self).wf(),
        ensures
            final(self).wf(),
            final(self).layout() == old(self).layout().event(e),
            final(self).last_sent() == old(self).last_sent(),
    {
        self.layout.event(e);
    }

    /// Runs once per period: ticks the layout, builds the report and decides
    /// on wakeup, maintenance and transmission.
    pub fn tick(&mut self, usb: UsbDeviceState, wakeup_enabled: bool) -> (outcome: TickOutcome)
        requires
            old(self).wf(),
        ensures
            final(self).wf(),
            final(self).layout() == report_tick(old(self).layout(), old(self).last_sent(), usb, wakeup_enabled).0,
            final(self).last_sent() == report_tick(
                old(self).layout(),
                old(self).last_sent(),
                usb,
                wakeup_enabled,
            ).1,
            outcome@ == report_tick(old(self).layout(), old(self).last_sent(), usb, wakeup_enabled).2,
    {
        let custom = self.layout.tick();
        let codes = self.layout.keycodes();
        let report = HidReport::build(&codes);
        let wakeup = needs_wakeup(&report, usb, wakeup_enabled);
        let maintenance = handle_custom(custom, self.layout.base_layer());
        let stop = match maintenance {
            Some(m) => m.is_terminal(),
            None => false,
        };
        if stop {
            TickOutcome { wakeup, maintenance, transmit: None }
        } else if self.transport.offer(report, usb) {
            TickOutcome { wakeup, maintenance, transmit: Some(report) }
        } else {
            TickOutcome { wakeup, maintenance, transmit: None }
        }
    }
}

/// Why a keypad cannot be set up.
#[derive(Clone, Copy, Debug, PartialEq, Eq, Structural)]
pub enum SetupError {
    /// The chords are refused, for this reason.
    Chords(ChordError),
    /// The keymap has no layer with the number of the base layer.
    NoSuchLayer,
}

/// What one period produced.
#[derive(Debug)]
pub struct PeriodOutcome {
    /// The events of the period, in the order in which the layout took them.
    pub events: Vec<Event>,
    /// What the report task decided.
    pub tick: TickOutcome,
    /// The absolute time at which the next period is due.
    pub next_deadline: u64,
}

/// The whole keypad: the two tasks, and whether the run has ended.
pub struct Keypad {
    scan: ScanTask,
    report: ReportTask,
    halted: bool,
}

impl Keypad {
    /// The scan task.
    pub closed spec fn scan_task(&self) -> ScanTask {
        self.scan
    }

    /// The report task.
    pub closed spec fn report_task(&self) -> ReportTask {
        self.report
    }

    /// Whether a request that ends the run has been handed out.
    pub closed spec fn halted(&self) -> bool {
        self.halted
    }

    /// What every keypad satisfies.
    pub open spec fn wf(&self) -> bool {
        self.scan_task().wf() && self.report_task().wf()
    }

    /// A keypad with fresh tasks. The chords are checked before the base
    /// layer.
    pub fn new(threshold: u16, chords: Vec<ChordDef>, keymap: Keymap, base: usize) -> (made: Result<
        Keypad,
        SetupError,
    >)
        requires
            keymap.wf(),
        ensures
            made is Ok <==> usable(chords@) && base < keymap@.len(),
            made matches Ok(pad) ==> {
                &&& pad.wf()
                &&& !pad.halted()
                &&& pad.scan_task().chords() == chords@
                &&& forall|i: int|
                    0 <= i < pad.scan_task().engaged().len() ==> !pad.scan_task().engaged()[i]
                &&& pad.scan_task().debounce().settled == crate::debounce::blank()
                &&& pad.scan_task().debounce().pending == crate::debounce::blank()
                &&& pad.scan_task().debounce().streak == 0
                &&& pad.scan_task().debounce().threshold() == if threshold == 0 {
                    1
                } else {
                    threshold as nat
                }
                &&& pad.report_task().layout() == (LayoutState {
                    layers: keymap@,
                    base: base,
                    resolved: Seq::empty(),
                    pending: Seq::empty(),
                })
                &&& pad.report_task().last_sent() == Seq::new(8, |i: int| 0u8)
            },
            made matches Err(SetupError::NoSuchLayer) ==> usable(chords@) && base >= keymap@.len(),
            made matches Err(SetupError::Chords(e)) ==> exists|i: int|
                {
                    &&& 0 <= i < chords@.len()
                    &&& #[trigger] crate::chord::fault_of(chords@, i) == Some(e)
                    &&& forall|k: int| 0 <= k < i ==> #[trigger] crate::chord::fault_of(chords@, k) is None
                },
    {
        match ScanTask::new(threshold, chords) {
            Err(e) => Err(SetupError::Chords(e)),
            Ok(scan) => match ReportTask::new(keymap, base) {
                None => Err(SetupError::NoSuchLayer),
                Some(report) => Ok(Keypad { scan, report, halted: false }),
            },
        }
    }

    /// The keypad as it is built: the standard scan task and the standard
    /// report task with layer `base` as the base layer. `None` unless `base`
    /// is one of the layers that can serve as the base layer.
    pub fn standard(base: usize) -> (made: Option<Keypad>)
        ensures
            made is Some <==> base < BASE_LAYERS,
            made matches Some(pad) ==> {
                &&& pad.wf()
                &&& !pad.halted()
                &&& pad.scan_task().chords().len() == 1
                &&& pad.scan_task().chords()[0].trigger == (2u8, 0u8)
                &&& pad.scan_task().chords()[0].members@ == seq![(1u8, 0u8), (1u8, 1u8)]
                &&& !pad.scan_task().engaged()[0]
                &&& pad.scan_task().debounce().settled == crate::debounce::blank()
                &&& pad.scan_task().debounce().pending == crate::debounce::blank()
                &&& pad.scan_task().debounce().streak == 0
                &&& pad.scan_task().debounce().threshold() == DEBOUNCE_THRESHOLD
                &&& pad.report_task().layout() == (LayoutState {
                    layers: standard_layers(),
                    base: base,
                    resolved: Seq::empty(),
                    pending: Seq::empty(),
                })
                &&& pad.report_task().last_sent() == Seq::new(8, |i: int| 0u8)
            },
    {
        match ReportTask::standard(base) {
            Some(report) => Some(Keypad { scan: ScanTask::standard(), report, halted: false }),
            None => None,
        }
    }

    /// Whether a request that ends the run has been handed out.
    pub fn is_halted(&self) -> (halted: bool)
        ensures
            halted == self.halted(),
    {
        self.halted
    }

    /// Runs one scan period that was due at `now`: the scan task takes the
    /// sample, the layout takes each event, the report task ticks, and the
    /// next deadline is set one period after `now`. Once a request that ends
    /// the run has been handed out, a period does nothing and returns `None`.
    pub fn period(&mut self, raw: RawMatrix, now: u64, usb: UsbDeviceState, wakeup_enabled: bool) -> (outcome:
        Option<PeriodOutcome>)
        requires
            old(self).wf(),
            now + TICK_PERIOD <= u64::MAX,
        ensures
            final(self).wf(),
            old(self).halted() ==> outcome is None && *final(self) == *old(self),
            !old(self).halted() ==> outcome is Some && ({
                let before = old(self).scan_task();
                let events = scan_events(before.debounce(), before.chords(), before.engaged(), grid(raw));
                let decided = report_tick(
                    apply_all(old(self).report_task().layout(), events),
                    old(self).report_task().last_sent(),
                    usb,
                    wakeup_enabled,
                );
                &&& outcome->Some_0.events@ == events
                &&& outcome->Some_0.tick@ == decided.2
                &&& outcome->Some_0.next_deadline == now + TICK_PERIOD
                &&& final(self).scan_task().debounce() == before.debounce().step(grid(raw))
                &&& final(self).scan_task().chords() == before.chords()
                &&& final(self).scan_task().engaged() == scan_engaged(
                    before.debounce(),
                    before.chords(),
                    before.engaged(),
                    grid(raw),
                )
                &&& final(self).report_task().layout() == decided.0
                &&& final(self).report_task().last_sent() == decided.1
                &&& final(self).halted() == ends_run(decided.2.maintenance)
            }),
    {
        if self.halted {
            return None;
        }
        let ghost layout0 = self.report.layout();
        let ghost last0 = self.report.last_sent();
        let events = self.scan.tick(raw);
        let ghost scanned = self.scan;
        let mut i: usize = 0;
        while i < events.len()
            invariant
                i <= events@.len(),
                self.scan == scanned,
                self.report.wf(),
                self.report.layout() == apply_all(layout0, events@.take(i as int)),
                self.report.last_sent() == last0,
            decreases events@.len() - i,
        {
            proof {
                assert(events@.take(i + 1).drop_last() == events@.take(i as int));
            }
            self.report.handle_event(events[i]);
            i += 1;
        }
        proof {
            assert(events@.take(events@.len() as int) == events@);
        }
        let tick = self.report.tick(usb, wakeup_enabled);
        self.halted = match tick.maintenance {
            Some(m) => m.is_terminal(),
            None => false,
        };
        Some(PeriodOutcome { events, tick, next_deadline: next_deadline(now) })
    }
}

/// Keys that do not change are reported once: of two report ticks in a
/// row that find the same key codes held, at most one has a report to
/// transmit, whatever the state of the USB device at each of them.
pub proof fn lemma_unchanged_keys_sent_once(
    first: LayoutState,
    second: LayoutState,
    last: Seq<u8>,
    usb_first: UsbDeviceState,
    usb_second: UsbDeviceState,
    wakeup_first: bool,
    wakeup_second: bool,
)
    requires
        first.tick().0.keycodes() == second.tick().0.keycodes(),
    ensures
        ({
            let one = report_tick(first, last, usb_first, wakeup_first);
            let two = report_tick(second, one.1, usb_second, wakeup_second);
            &&& !(one.2.transmit is Some && two.2.transmit is Some)
            &&& one.2.transmit is Some ==> one.2.transmit == Some(report_bytes(first.tick().0.keycodes()))
        }),
{
}

/// The report of a layout never shows a key twice: two slots in use hold
/// different key codes, whatever is held.
pub proof fn lemma_report_slots_distinct(layout: LayoutState, i: int, j: int)
    requires
        2 <= i < j < 8,
        report_bytes(layout.keycodes())[i] != 0,
        report_bytes(layout.keycodes())[j] != 0,
    ensures
        report_bytes(layout.keycodes())[i] != report_bytes(layout.keycodes())[j],
{
    crate::layout::lemma_held_keys(layout.resolved);
    crate::report::lemma_slots_distinct(layout.keycodes(), i, j);
}

} // verus!
