//! A wire tap: the targets that get copies of a message, and when they get them.
//! A target's sampling rate is the caller's; the library holds targets as given.
use vstd::prelude::*;

verus! {

/// When to tap the message in the request/response lifecycle.
#[derive(Debug, Clone, Copy, PartialEq, Eq, Structural)]
pub enum TapPoint {
    /// Tap before the main operation executes
    Before,
    /// Tap after the main operation completes (default)
    After,
    /// Tap both before and after
    Both,
}

impl Default for TapPoint {
    fn default() -> (t: TapPoint)
        ensures
            t == TapPoint::After,
    {
        TapPoint::After
    }
}

impl TapPoint {
    /// Whether a tap at this point runs before the main operation.
    pub fn taps_before(&self) -> (r: bool)
        ensures
            r == (*self == TapPoint::Before || *self == TapPoint::Both),
    {
        match self {
            TapPoint::Before => true,
            TapPoint::After => false,
            TapPoint::Both => true,
        }
    }

    /// Whether a tap at this point runs after the main operation.
    pub fn taps_after(&self) -> (r: bool)
        ensures
            r == (*self == TapPoint::After || *self == TapPoint::Both),
    {
        match self {
            TapPoint::Before => false,
            TapPoint::After => true,
            TapPoint::Both => true,
        }
    }
}

/// A wire tap: its targets, and when it taps.
#[derive(Debug, Clone)]
pub struct WireTap<T> {
    /// Targets to send tapped messages to
    pub targets: Vec<T>,
    /// When to tap the message
    pub tap_point: TapPoint,
}

impl<T> WireTap<T> {
    /// A wire tap at the default point (after the main operation).
    pub fn new(targets: Vec<T>) -> (w: WireTap<T>)
        ensures
            w.targets@ == targets@,
            w.tap_point == TapPoint::After,
    {
        WireTap { targets, tap_point: TapPoint::default() }
    }

    /// A wire tap before the main operation.
    pub fn before(targets: Vec<T>) -> (w: WireTap<T>)
        ensures
            w.targets@ == targets@,
            w.tap_point == TapPoint::Before,
    {
        WireTap { targets, tap_point: TapPoint::Before }
    }

    /// A wire tap after the main operation.
    pub fn after(targets: Vec<T>) -> (w: WireTap<T>)
        ensures
            w.targets@ == targets@,
            w.tap_point == TapPoint::After,
    {
        WireTap { targets, tap_point: TapPoint::After }
    }

    /// A wire tap before and after the main operation.
    pub fn both(targets: Vec<T>) -> (w: WireTap<T>)
        ensures
            w.targets@ == targets@,
            w.tap_point == TapPoint::Both,
    {
        WireTap { targets, tap_point: TapPoint::Both }
    }

    /// Whether this wire tap runs before the main operation.
    pub fn should_tap_before(&self) -> (r: bool)
        ensures
            r == (self.tap_point == TapPoint::Before || self.tap_point == TapPoint::Both),
    {
        self.tap_point.taps_before()
    }

    /// Whether this wire tap runs after the main operation.
    pub fn should_tap_after(&self) -> (r: bool)
        ensures
            r == (self.tap_point == TapPoint::After || self.tap_point == TapPoint::Both),
    {
        self.tap_point.taps_after()
    }
}

} // verus!
