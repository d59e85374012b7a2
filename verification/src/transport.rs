//! When a report goes to the host: the decisions of the transport side.
//!
//! The USB device itself is driven by the caller. This module decides, from
//! the state that the caller reads off the device, whether to wake the host,
//! whether to transmit, and whether to try a transmission again.

use vstd::prelude::*;
use crate::report::{any_active, HidReport};

verus! {

/// The state of the USB device as the host has set it.
#[derive(Clone, Copy, Debug, PartialEq, Eq, Structural)]
pub enum UsbDeviceState {
    /// Attached, no address yet.
    Default,
    /// Addressed, not configured yet.
    Addressed,
    /// Configured: reports can be sent.
    Configured,
    /// Suspended by the host.
    Suspend,
}

/// Whether the host is to be woken: a key is active, the device is
/// suspended, and the host has allowed remote wakeup.
pub open spec fn wakeup_due(report: Seq<u8>, usb: UsbDeviceState, wakeup_enabled: bool) -> bool {
    any_active(report) && usb == UsbDeviceState::Suspend && wakeup_enabled
}

/// Whether `report` is to be transmitted when `last` is the report sent
/// before it: the device is configured and the report differs from `last`.
pub open spec fn transmit_due(last: Seq<u8>, report: Seq<u8>, usb: UsbDeviceState) -> bool {
    usb == UsbDeviceState::Configured && report != last
}

/// The report to compare the next one with, after `report` was offered.
pub open spec fn last_after(last: Seq<u8>, report: Seq<u8>, usb: UsbDeviceState) -> Seq<u8> {
    if transmit_due(last, report, usb) {
        report
    } else {
        last
    }
}

/// Whether the host is to be woken before anything else is done with
/// `report`.
pub fn needs_wakeup(report: &HidReport, usb: UsbDeviceState, wakeup_enabled: bool) -> (wake: bool)
    ensures
        wake == wakeup_due(report@, usb, wakeup_enabled),
{
    report.is_active() && usb == UsbDeviceState::Suspend && wakeup_enabled
}

/// Whether a transmission has to be tried again, from what the endpoint
/// said of the last try: it has, exactly if the endpoint took no byte.
pub fn write_again(outcome: Result<usize, ()>) -> (again: bool)
    ensures
        again == (outcome == Ok::<usize, ()>(0)),
{
    match outcome {
        Ok(n) => n == 0,
        Err(_) => false,
    }
}

/// Remembers the report sent last, so that a report is sent only when it
/// differs from the one before.
pub struct Transport {
    last_sent: HidReport,
}

impl View for Transport {
    type V = Seq<u8>;

    /// The bytes of the report sent last.
    closed spec fn view(&self) -> Seq<u8> {
        self.last_sent@
    }
}

impl Transport {
    /// A transport that has sent nothing yet; this counts as having sent
    /// the empty report.
    pub fn new() -> (t: Transport)
        ensures
            t@ == Seq::new(8, |i: int| 0u8),
    {
        Transport { last_sent: HidReport::empty() }
    }

    /// The report sent last.
    pub fn last_sent(&self) -> (report: HidReport)
        ensures
            report@ == self@,
    {
        self.last_sent
    }

    /// Offers the report of this period and says whether it is to be
    /// transmitted. A report that is to be transmitted becomes the report
    /// sent last.
    pub fn offer(&mut self, report: HidReport, usb: UsbDeviceState) -> (send: bool)
        ensures
            send == transmit_due(old(self)@, report@, usb),
            final(self)@ == last_after(old(self)@, report@, usb),
    {
        if usb == UsbDeviceState::Configured && !report.same_as(&self.last_sent) {
            self.last_sent = report;
            true
        } else {
            false
        }
    }
}

/// A report that does not change is sent once: of two offers of the same
/// report in a row, whatever the device state at each, at most one is to be
/// transmitted; and if the device is configured at both and the report is
/// new at the first, exactly the first is.
pub proof fn lemma_same_report_sent_once(
    last: Seq<u8>,
    report: Seq<u8>,
    first: UsbDeviceState,
    second: UsbDeviceState,
)
    ensures
        !(transmit_due(last, report, first) && transmit_due(
            last_after(last, report, first),
            report,
            second,
        )),
        first == UsbDeviceState::Configured && report != last ==> transmit_due(last, report, first),
        first == UsbDeviceState::Configured ==> !transmit_due(
            last_after(last, report, first),
            report,
            second,
        ),
{
}

} // verus!
