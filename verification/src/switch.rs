//! Switches: pins read as inputs (buttons, key switches) or driven as outputs (LEDs,
//! transistors), with the level that counts as active.
use core::marker::PhantomData;
use vstd::prelude::*;

verus! {

/// Represents an input switch, such as a button or a switch.
pub trait InputSwitch {
    type Error;

    /// Returns true if the switch has been activated, otherwise false, i.e. if a button is
    /// currently pressed, returns true.
    fn is_active(&self) -> Result<bool, Self::Error>;
}

/// Represents an output switch, such as a LED "switch" or transistor.
pub trait OutputSwitch {
    type Error;

    /// Turns the switch on.
    fn on(&mut self) -> Result<(), Self::Error>;

    /// Turns the switch off.
    fn off(&mut self) -> Result<(), Self::Error>;
}

/// Toggles the switch from its current state to its opposite state.
pub trait ToggleableOutputSwitch {
    type Error;

    /// Toggles the current state of the output switch.
    fn toggle(&mut self) -> Result<(), Self::Error>;
}

/// Checks the current switch state.
pub trait StatefulOutputSwitch {
    type Error;

    /// Checks whether the switch is on.
    fn is_on(&mut self) -> Result<bool, Self::Error>;

    /// Checks whether the switch is off.
    fn is_off(&mut self) -> Result<bool, Self::Error>;
}

/// The pin level at which a switch is active.
pub trait ActiveLevel {
    /// Whether the switch is active at a high pin level.
    spec fn active_high() -> bool;

    /// Whether a switch whose pin is at the given level is active.
    fn is_active_at(pin_high: bool) -> (r: bool)
        ensures
            r == (pin_high == Self::active_high()),
    ;

    /// The pin level that makes the switch active (`true`) or inactive (`false`); high is `true`.
    fn pin_level_for(active: bool) -> (r: bool)
        ensures
            r == (active == Self::active_high()),
    ;
}

/// Zero sized struct for signaling to [`Switch`] that it is active high.
pub struct ActiveHigh;

/// Zero sized struct for signaling to [`Switch`] that it is active low.
pub struct ActiveLow;

impl ActiveLevel for ActiveHigh {
    open spec fn active_high() -> bool {
        true
    }

    fn is_active_at(pin_high: bool) -> (r: bool) {
        pin_high
    }

    fn pin_level_for(active: bool) -> (r: bool) {
        active
    }
}

impl ActiveLevel for ActiveLow {
    open spec fn active_high() -> bool {
        false
    }

    fn is_active_at(pin_high: bool) -> (r: bool) {
        !pin_high
    }

    fn pin_level_for(active: bool) -> (r: bool) {
        !active
    }
}

/// A pin together with the level at which it counts as active. `ActiveLevel` is not stored; it
/// selects the behaviour.
pub struct Switch<IoPin, Level> {
    pin: IoPin,
    active: PhantomData<Level>,
}

impl<IoPin, Level> Switch<IoPin, Level> {
    /// The pin.
    pub closed spec fn pin(&self) -> IoPin {
        self.pin
    }

    /// Constructs a new [`Switch`] from a pin.
    pub fn new(pin: IoPin) -> (r: Self)
        ensures
            r.pin() == pin,
    {
        Switch { pin, active: PhantomData }
    }

    /// Consumes the [`Switch`] and returns the underlying pin.
    pub fn into_pin(self) -> (r: IoPin)
        ensures
            r == self.pin(),
    {
        self.pin
    }
}

impl<IoPin, Level: ActiveLevel> Switch<IoPin, Level> {
    /// Whether the switch is active when its pin is at the given level.
    pub fn is_active_at(&self, pin_high: bool) -> (r: bool)
        ensures
            r == (pin_high == Level::active_high()),
    {
        Level::is_active_at(pin_high)
    }

    /// The pin level that turns the switch on (`true`) or off (`false`).
    pub fn pin_level_for(&self, on: bool) -> (r: bool)
        ensures
            r == (on == Level::active_high()),
    {
        Level::pin_level_for(on)
    }
}

/// Reading back the pin level that [`ActiveLevel::pin_level_for`] gives for `on` counts as
/// active exactly when `on`: driving a switch on and reading it gives active, off gives inactive.
pub proof fn law_drive_then_read<Level: ActiveLevel>(on: bool)
    ensures
        ((on == Level::active_high()) == Level::active_high()) == on,
{
}

/// Convenience functions for converting pins to a [`Switch`].
pub trait IntoSwitch: Sized {
    /// Consumes the pin, returning a [`Switch`] of the given active level.
    fn into_switch<Level>(self) -> Switch<Self, Level>;

    /// Consumes the pin, returning a `Switch<Self, ActiveLow>`.
    fn into_active_low_switch(self) -> Switch<Self, ActiveLow>;

    /// Consumes the pin, returning a `Switch<Self, ActiveHigh>`.
    fn into_active_high_switch(self) -> Switch<Self, ActiveHigh>;
}

impl<T> IntoSwitch for T {
    fn into_switch<Level>(self) -> (r: Switch<Self, Level>)
        ensures
            r.pin() == self,
    {
        Switch::<Self, Level>::new(self)
    }

    fn into_active_low_switch(self) -> (r: Switch<Self, ActiveLow>)
        ensures
            r.pin() == self,
    {
        Switch::<Self, ActiveLow>::new(self)
    }

    fn into_active_high_switch(self) -> (r: Switch<Self, ActiveHigh>)
        ensures
            r.pin() == self,
    {
        Switch::<Self, ActiveHigh>::new(self)
    }
}

} // verus!
