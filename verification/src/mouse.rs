//! The mouse: its report, its buttons, and the actions that press buttons, move the pointer and
//! scroll.
use crate::action::{same_layers, send, unchanged, Action, ActionContext, Output};
use vstd::prelude::*;

verus! {

/// A mouse button; each has its own bit in the button byte of a report.
#[derive(Debug, Clone, Copy, PartialEq, Eq, Hash, Structural)]
pub enum MouseButton {
    Button1,
    Button2,
    Button3,
    Button4,
    Button5,
    Button6,
    Button7,
    Button8,
}

/// The button's bit in the button byte: `Button1` is bit 0, up to `Button8`, bit 7.
pub open spec fn button_mask(button: MouseButton) -> u8 {
    match button {
        MouseButton::Button1 => 0b0000_0001,
        MouseButton::Button2 => 0b0000_0010,
        MouseButton::Button3 => 0b0000_0100,
        MouseButton::Button4 => 0b0000_1000,
        MouseButton::Button5 => 0b0001_0000,
        MouseButton::Button6 => 0b0010_0000,
        MouseButton::Button7 => 0b0100_0000,
        MouseButton::Button8 => 0b1000_0000,
    }
}

/// The button's number: 1 for `Button1`, up to 8 for `Button8`.
pub open spec fn button_number(button: MouseButton) -> u8 {
    match button {
        MouseButton::Button1 => 1,
        MouseButton::Button2 => 2,
        MouseButton::Button3 => 3,
        MouseButton::Button4 => 4,
        MouseButton::Button5 => 5,
        MouseButton::Button6 => 6,
        MouseButton::Button7 => 7,
        MouseButton::Button8 => 8,
    }
}

/// Button N has bit N - 1 of the button byte, as the HID button page numbers them: pressing a
/// button sets that bit of the report and no other.
pub proof fn law_button_n_is_bit_n_minus_one(button: MouseButton, buttons: u8)
    ensures
        button_mask(button) == 1u8 << ((button_number(button) - 1) as u8),
        (buttons | button_mask(button)) == (buttons | (1u8 << ((button_number(button) - 1) as u8))),
{
    assert(1u8 << 0u8 == 1u8) by (bit_vector);
    assert(1u8 << 1u8 == 2u8) by (bit_vector);
    assert(1u8 << 2u8 == 4u8) by (bit_vector);
    assert(1u8 << 3u8 == 8u8) by (bit_vector);
    assert(1u8 << 4u8 == 16u8) by (bit_vector);
    assert(1u8 << 5u8 == 32u8) by (bit_vector);
    assert(1u8 << 6u8 == 64u8) by (bit_vector);
    assert(1u8 << 7u8 == 128u8) by (bit_vector);
}

/// Whether `mask` has exactly one bit set.
pub open spec fn single_bit(mask: u8) -> bool {
    mask == 1 || mask == 2 || mask == 4 || mask == 8 || mask == 16 || mask == 32 || mask == 64
        || mask == 128
}

impl MouseButton {
    /// The button's bit in the button byte of a report.
    pub fn mask(&self) -> (r: u8)
        ensures
            r == button_mask(*self),
    {
        match self {
            MouseButton::Button1 => 0b0000_0001,
            MouseButton::Button2 => 0b0000_0010,
            MouseButton::Button3 => 0b0000_0100,
            MouseButton::Button4 => 0b0000_1000,
            MouseButton::Button5 => 0b0001_0000,
            MouseButton::Button6 => 0b0010_0000,
            MouseButton::Button7 => 0b0100_0000,
            MouseButton::Button8 => 0b1000_0000,
        }
    }
}

/// The report sent by the device to represent the state of the mouse.
#[derive(Debug, Clone, Copy, PartialEq, Eq, Structural)]
pub struct MouseReport {
    /// The pressed buttons, one bit each.
    pub buttons: u8,
    pub move_x: i8,
    pub move_y: i8,
    pub scroll_x: i8,
    pub scroll_y: i8,
}

/// A mouse report in the layout of the HID boot mouse report: buttons, x, y, wheel, pan.
#[derive(Debug, Clone, Copy, PartialEq, Eq, Structural)]
pub struct HidMouseReport {
    pub buttons: u8,
    pub x: i8,
    pub y: i8,
    pub wheel: i8,
    pub pan: i8,
}

impl MouseReport {
    /// A report without buttons or movement.
    pub fn empty() -> (r: Self)
        ensures
            r == (MouseReport { buttons: 0, move_x: 0, move_y: 0, scroll_x: 0, scroll_y: 0 }),
    {
        MouseReport { buttons: 0, move_x: 0, move_y: 0, scroll_x: 0, scroll_y: 0 }
    }

    /// Releases all buttons and stops all movement.
    pub fn clear(&mut self)
        ensures
            *final(self) == (MouseReport {
                buttons: 0,
                move_x: 0,
                move_y: 0,
                scroll_x: 0,
                scroll_y: 0,
            }),
    {
        self.buttons = 0;
        self.move_x = 0;
        self.move_y = 0;
        self.scroll_x = 0;
        self.scroll_y = 0;
    }

    /// The report in HID layout: vertical scrolling is the wheel, horizontal scrolling the pan.
    pub fn to_hid_report(&self) -> (r: HidMouseReport)
        ensures
            r == (HidMouseReport {
                buttons: self.buttons,
                x: self.move_x,
                y: self.move_y,
                wheel: self.scroll_y,
                pan: self.scroll_x,
            }),
    {
        HidMouseReport {
            buttons: self.buttons,
            x: self.move_x,
            y: self.move_y,
            wheel: self.scroll_y,
            pan: self.scroll_x,
        }
    }

    /// Whether `button` is pressed.
    pub fn is_pressed(&self, button: MouseButton) -> (r: bool)
        ensures
            r == (self.buttons & button_mask(button) != 0),
    {
        self.buttons & button.mask() != 0
    }

    /// Presses `button`; the other buttons and the movement stay.
    pub fn press(&mut self, button: MouseButton)
        ensures
            final(self).buttons == old(self).buttons | button_mask(button),
            final(self).move_x == old(self).move_x,
            final(self).move_y == old(self).move_y,
            final(self).scroll_x == old(self).scroll_x,
            final(self).scroll_y == old(self).scroll_y,
    {
        self.buttons = self.buttons | button.mask();
    }

    /// Releases `button`; the other buttons and the movement stay.
    pub fn release(&mut self, button: MouseButton)
        ensures
            final(self).buttons == old(self).buttons & !button_mask(button),
            final(self).move_x == old(self).move_x,
            final(self).move_y == old(self).move_y,
            final(self).scroll_x == old(self).scroll_x,
            final(self).scroll_y == old(self).scroll_y,
    {
        self.buttons = self.buttons & !button.mask();
    }
}

/// The input report of a HID mouse report as the host receives it: buttons, x, y, wheel, pan,
/// each one byte (the signed values in two's complement).
pub open spec fn hid_report_bytes(report: HidMouseReport) -> Seq<u8> {
    seq![report.buttons, report.x as u8, report.y as u8, report.wheel as u8, report.pan as u8]
}

/// Serializes `report` with `AsInputReport::serialize` of the HID mouse report of `usbd_hid`,
/// into a buffer of 5 bytes. The serializer that the descriptor macro generates writes the five
/// input fields in order, one byte each (`as u8`), and returns 5, which fits the buffer.
#[verifier::external_body]
fn serialize_mouse_report(report: &HidMouseReport) -> (r: Option<Vec<u8>>)
    ensures
        r.is_some(),
        r.unwrap()@ == hid_report_bytes(*report),
{
    let hid = usbd_hid::descriptor::MouseReport {
        buttons: report.buttons,
        x: report.x,
        y: report.y,
        wheel: report.wheel,
        pan: report.pan,
    };
    let mut buffer = [0u8; 5];
    match usbd_hid::descriptor::AsInputReport::serialize(&hid, &mut buffer) {
        Ok(len) => Some(buffer[..len].to_vec()),
        Err(_) => None,
    }
}

impl MouseReport {
    /// The bytes of the report as it is sent to the host over USB.
    pub fn to_report_bytes(&self) -> (r: Vec<u8>)
        ensures
            r@ == hid_report_bytes(
                HidMouseReport {
                    buttons: self.buttons,
                    x: self.move_x,
                    y: self.move_y,
                    wheel: self.scroll_y,
                    pan: self.scroll_x,
                },
            ),
    {
        let hid = self.to_hid_report();
        serialize_mouse_report(&hid).unwrap()
    }
}

impl Default for MouseReport {
    fn default() -> (r: Self)
        ensures
            r == (MouseReport { buttons: 0, move_x: 0, move_y: 0, scroll_x: 0, scroll_y: 0 }),
    {
        Self::empty()
    }
}

/// Pressing a button sets exactly its bit and releasing it clears exactly its bit: pressing a
/// button leaves it pressed, releasing it leaves it released, and pressing and then releasing a
/// button that was not pressed gives the buttons back.
pub proof fn law_press_release_restores_buttons(buttons: u8, button: MouseButton)
    ensures
        (buttons | button_mask(button)) & button_mask(button) != 0,
        (buttons & !button_mask(button)) & button_mask(button) == 0,
        buttons & button_mask(button) == 0 ==> (buttons | button_mask(button)) & !button_mask(
            button,
        ) == buttons,
{
    let m = button_mask(button);
    assert(single_bit(m));
    assert((buttons | m) & m != 0) by (bit_vector)
        requires
            single_bit(m),
    ;
    assert((buttons & !m) & m == 0) by (bit_vector);
    assert(buttons & m == 0 ==> (buttons | m) & !m == buttons) by (bit_vector);
}

/// Pressing or releasing one button does not change whether another is pressed.
pub proof fn law_buttons_are_independent(buttons: u8, button: MouseButton, other: MouseButton)
    requires
        button != other,
    ensures
        (buttons | button_mask(button)) & button_mask(other) == buttons & button_mask(other),
        (buttons & !button_mask(button)) & button_mask(other) == buttons & button_mask(other),
{
    let m = button_mask(button);
    let o = button_mask(other);
    assert(single_bit(m) && single_bit(o) && m != o);
    assert((buttons | m) & o == buttons & o) by (bit_vector)
        requires
            single_bit(m),
            single_bit(o),
            m != o,
    ;
    assert((buttons & !m) & o == buttons & o) by (bit_vector)
        requires
            single_bit(m),
            single_bit(o),
            m != o,
    ;
}

impl Action for MouseButton {
    open spec fn press_effect(&self, next: Self, before: ActionContext<'_>, after: ActionContext<'_>) -> bool {
        &&& next == *self
        &&& match before.mouse_report {
            None => unchanged(before, after),
            Some(report) => {
                let pressed = MouseReport { buttons: report.buttons | button_mask(*self), ..report };
                &&& after.mouse_report == Some(pressed)
                &&& after.outputs@ == before.outputs@.push(Output::Mouse(pressed))
                &&& same_layers(before.layers, after.layers)
            },
        }
    }

    /// Presses the button in the mouse state and sends the report; nothing without a mouse state.
    fn on_press(&mut self, ctx: &mut ActionContext<'_>) {
        if let Some(report) = ctx.mouse_report {
            let mut report = report;
            report.press(*self);
            ctx.mouse_report = Some(report);
            send(ctx, Output::Mouse(report));
        }
    }

    open spec fn release_effect(&self, next: Self, before: ActionContext<'_>, after: ActionContext<'_>) -> bool {
        &&& next == *self
        &&& match before.mouse_report {
            None => unchanged(before, after),
            Some(report) => {
                let released = MouseReport { buttons: report.buttons & ! button_mask(*self), ..report };
                &&& after.mouse_report == Some(released)
                &&& after.outputs@ == before.outputs@.push(Output::Mouse(released))
                &&& same_layers(before.layers, after.layers)
            },
        }
    }

    /// Releases the button in the mouse state and sends the report; nothing without a mouse state.
    fn on_release(&mut self, ctx: &mut ActionContext<'_>) {
        if let Some(report) = ctx.mouse_report {
            let mut report = report;
            report.release(*self);
            ctx.mouse_report = Some(report);
            send(ctx, Output::Mouse(report));
        }
    }
}


/// Moves the pointer horizontally while the key is held: every interval the runner calls [`MoveMouseX::on_interval`], which
/// sets the report's `move_x` to the step and sends the report.
pub struct MoveMouseX {
    interval_ms: u64,
    step: i8,
    is_active: bool,
    stop_pending: bool,
}

impl MoveMouseX {
    /// The time between two reports, in milliseconds.
    pub closed spec fn interval_ms(&self) -> u64 {
        self.interval_ms
    }

    /// The value of `move_x` in each report.
    pub closed spec fn step_value(&self) -> i8 {
        self.step
    }

    /// Whether reports are being sent.
    pub closed spec fn is_active(&self) -> bool {
        self.is_active
    }

    /// Whether a release came while no reports were sent; it cancels the next press.
    pub closed spec fn stop_pending(&self) -> bool {
        self.stop_pending
    }

    /// An action with the step `step` and an interval of 16 ms.
    pub fn with_step(step: i8) -> (r: Self)
        ensures
            r.step_value() == step,
            r.interval_ms() == 16,
            !r.is_active(),
            !r.stop_pending(),
    {
        MoveMouseX { interval_ms: 16, step, is_active: false, stop_pending: false }
    }

    /// Moves the pointer right.
    pub fn right() -> (r: Self)
        ensures
            r.step_value() == 1,
            r.interval_ms() == 16,
            !r.is_active(),
            !r.stop_pending(),
    {
        Self::with_step(1)
    }

    /// Moves the pointer left.
    pub fn left() -> (r: Self)
        ensures
            r.step_value() == -1,
            r.interval_ms() == 16,
            !r.is_active(),
            !r.stop_pending(),
    {
        Self::with_step(-1)
    }

    /// Sets the time between two reports, in milliseconds.
    pub fn interval(self, interval_ms: u64) -> (r: Self)
        ensures
            r.interval_ms() == interval_ms,
            r.step_value() == self.step_value(),
            r.is_active() == self.is_active(),
            r.stop_pending() == self.stop_pending(),
    {
        let mut this = self;
        this.interval_ms = interval_ms;
        this
    }

    /// Adds `step` to the step.
    pub fn step(self, step: i8) -> (r: Self)
        requires
            i8::MIN <= self.step_value() + step <= i8::MAX,
        ensures
            r.step_value() == self.step_value() + step,
            r.interval_ms() == self.interval_ms(),
            r.is_active() == self.is_active(),
            r.stop_pending() == self.stop_pending(),
    {
        let mut this = self;
        this.step = this.step + step;
        this
    }

    /// One interval has passed: while active, sets `move_x` of the mouse state to the step and
    /// sends the report.
    pub fn on_interval(&mut self, ctx: &mut ActionContext<'_>)
        ensures
            *final(self) == *old(self),
            match (old(self).is_active(), old(ctx).mouse_report) {
                (true, Some(report)) => {
                    let moved = MouseReport { move_x: old(self).step_value(), ..report };
                    &&& final(ctx).mouse_report == Some(moved)
                    &&& final(ctx).outputs@ == old(ctx).outputs@.push(Output::Mouse(moved))
                    &&& same_layers(old(ctx).layers, final(ctx).layers)
                },
                _ => unchanged(*old(ctx), *final(ctx)),
            },
    {
        if self.is_active {
            if let Some(report) = ctx.mouse_report {
                let mut report = report;
                report.move_x = self.step;
                ctx.mouse_report = Some(report);
                send(ctx, Output::Mouse(report));
            }
        }
    }
}

impl Action for MoveMouseX {
    open spec fn press_effect(&self, next: Self, before: ActionContext<'_>, after: ActionContext<'_>) -> bool {
        &&& unchanged(before, after)
        &&& next.step_value() == self.step_value()
        &&& next.interval_ms() == self.interval_ms()
        &&& next.is_active() == (self.is_active() || !self.stop_pending())
        &&& next.stop_pending() == (self.is_active() && self.stop_pending())
    }

    /// Starts sending reports, unless they are being sent already or a release cancels the press.
    fn on_press(&mut self, ctx: &mut ActionContext<'_>) {
        if !self.is_active {
            if self.stop_pending {
                self.stop_pending = false;
            } else {
                self.is_active = true;
            }
        }
    }

    open spec fn release_effect(&self, next: Self, before: ActionContext<'_>, after: ActionContext<'_>) -> bool {
        &&& unchanged(before, after)
        &&& next.step_value() == self.step_value()
        &&& next.interval_ms() == self.interval_ms()
        &&& !next.is_active()
        &&& next.stop_pending() == !self.is_active()
    }

    /// Stops sending reports.
    fn on_release(&mut self, ctx: &mut ActionContext<'_>) {
        if self.is_active {
            self.is_active = false;
            self.stop_pending = false;
        } else {
            self.stop_pending = true;
        }
    }
}

/// Moves the pointer vertically while the key is held: every interval the runner calls [`MoveMouseY::on_interval`], which
/// sets the report's `move_y` to the step and sends the report.
pub struct MoveMouseY {
    interval_ms: u64,
    step: i8,
    is_active: bool,
    stop_pending: bool,
}

impl MoveMouseY {
    /// The time between two reports, in milliseconds.
    pub closed spec fn interval_ms(&self) -> u64 {
        self.interval_ms
    }

    /// The value of `move_y` in each report.
    pub closed spec fn step_value(&self) -> i8 {
        self.step
    }

    /// Whether reports are being sent.
    pub closed spec fn is_active(&self) -> bool {
        self.is_active
    }

    /// Whether a release came while no reports were sent; it cancels the next press.
    pub closed spec fn stop_pending(&self) -> bool {
        self.stop_pending
    }

    /// An action with the step `step` and an interval of 16 ms.
    pub fn with_step(step: i8) -> (r: Self)
        ensures
            r.step_value() == step,
            r.interval_ms() == 16,
            !r.is_active(),
            !r.stop_pending(),
    {
        MoveMouseY { interval_ms: 16, step, is_active: false, stop_pending: false }
    }

    /// Moves the pointer down.
    pub fn down() -> (r: Self)
        ensures
            r.step_value() == 1,
            r.interval_ms() == 16,
            !r.is_active(),
            !r.stop_pending(),
    {
        Self::with_step(1)
    }

    /// Moves the pointer up.
    pub fn up() -> (r: Self)
        ensures
            r.step_value() == -1,
            r.interval_ms() == 16,
            !r.is_active(),
            !r.stop_pending(),
    {
        Self::with_step(-1)
    }

    /// Sets the time between two reports, in milliseconds.
    pub fn interval(self, interval_ms: u64) -> (r: Self)
        ensures
            r.interval_ms() == interval_ms,
            r.step_value() == self.step_value(),
            r.is_active() == self.is_active(),
            r.stop_pending() == self.stop_pending(),
    {
        let mut this = self;
        this.interval_ms = interval_ms;
        this
    }

    /// Adds `step` to the step.
    pub fn step(self, step: i8) -> (r: Self)
        requires
            i8::MIN <= self.step_value() + step <= i8::MAX,
        ensures
            r.step_value() == self.step_value() + step,
            r.interval_ms() == self.interval_ms(),
            r.is_active() == self.is_active(),
            r.stop_pending() == self.stop_pending(),
    {
        let mut this = self;
        this.step = this.step + step;
        this
    }

    /// One interval has passed: while active, sets `move_y` of the mouse state to the step and
    /// sends the report.
    pub fn on_interval(&mut self, ctx: &mut ActionContext<'_>)
        ensures
            *final(self) == *old(self),
            match (old(self).is_active(), old(ctx).mouse_report) {
                (true, Some(report)) => {
                    let moved = MouseReport { move_y: old(self).step_value(), ..report };
                    &&& final(ctx).mouse_report == Some(moved)
                    &&& final(ctx).outputs@ == old(ctx).outputs@.push(Output::Mouse(moved))
                    &&& same_layers(old(ctx).layers, final(ctx).layers)
                },
                _ => unchanged(*old(ctx), *final(ctx)),
            },
    {
        if self.is_active {
            if let Some(report) = ctx.mouse_report {
                let mut report = report;
                report.move_y = self.step;
                ctx.mouse_report = Some(report);
                send(ctx, Output::Mouse(report));
            }
        }
    }
}

impl Action for MoveMouseY {
    open spec fn press_effect(&self, next: Self, before: ActionContext<'_>, after: ActionContext<'_>) -> bool {
        &&& unchanged(before, after)
        &&& next.step_value() == self.step_value()
        &&& next.interval_ms() == self.interval_ms()
        &&& next.is_active() == (self.is_active() || !self.stop_pending())
        &&& next.stop_pending() == (self.is_active() && self.stop_pending())
    }

    /// Starts sending reports, unless they are being sent already or a release cancels the press.
    fn on_press(&mut self, ctx: &mut ActionContext<'_>) {
        if !self.is_active {
            if self.stop_pending {
                self.stop_pending = false;
            } else {
                self.is_active = true;
            }
        }
    }

    open spec fn release_effect(&self, next: Self, before: ActionContext<'_>, after: ActionContext<'_>) -> bool {
        &&& unchanged(before, after)
        &&& next.step_value() == self.step_value()
        &&& next.interval_ms() == self.interval_ms()
        &&& !next.is_active()
        &&& next.stop_pending() == !self.is_active()
    }

    /// Stops sending reports.
    fn on_release(&mut self, ctx: &mut ActionContext<'_>) {
        if self.is_active {
            self.is_active = false;
            self.stop_pending = false;
        } else {
            self.stop_pending = true;
        }
    }
}

/// Scrolls horizontally while the key is held: every interval the runner calls [`ScrollX::on_interval`], which
/// sets the report's `scroll_x` to the step and sends the report.
pub struct ScrollX {
    interval_ms: u64,
    step: i8,
    is_active: bool,
    stop_pending: bool,
}

impl ScrollX {
    /// The time between two reports, in milliseconds.
    pub closed spec fn interval_ms(&self) -> u64 {
        self.interval_ms
    }

    /// The value of `scroll_x` in each report.
    pub closed spec fn step_value(&self) -> i8 {
        self.step
    }

    /// Whether reports are being sent.
    pub closed spec fn is_active(&self) -> bool {
        self.is_active
    }

    /// Whether a release came while no reports were sent; it cancels the next press.
    pub closed spec fn stop_pending(&self) -> bool {
        self.stop_pending
    }

    /// An action with the step `step` and an interval of 32 ms.
    pub fn with_step(step: i8) -> (r: Self)
        ensures
            r.step_value() == step,
            r.interval_ms() == 32,
            !r.is_active(),
            !r.stop_pending(),
    {
        ScrollX { interval_ms: 32, step, is_active: false, stop_pending: false }
    }

    /// Scrolls right.
    pub fn right() -> (r: Self)
        ensures
            r.step_value() == 1,
            r.interval_ms() == 32,
            !r.is_active(),
            !r.stop_pending(),
    {
        Self::with_step(1)
    }

    /// Scrolls left.
    pub fn left() -> (r: Self)
        ensures
            r.step_value() == -1,
            r.interval_ms() == 32,
            !r.is_active(),
            !r.stop_pending(),
    {
        Self::with_step(-1)
    }

    /// Sets the time between two reports, in milliseconds.
    pub fn interval(self, interval_ms: u64) -> (r: Self)
        ensures
            r.interval_ms() == interval_ms,
            r.step_value() == self.step_value(),
            r.is_active() == self.is_active(),
            r.stop_pending() == self.stop_pending(),
    {
        let mut this = self;
        this.interval_ms = interval_ms;
        this
    }

    /// Adds `step` to the step.
    pub fn step(self, step: i8) -> (r: Self)
        requires
            i8::MIN <= self.step_value() + step <= i8::MAX,
        ensures
            r.step_value() == self.step_value() + step,
            r.interval_ms() == self.interval_ms(),
            r.is_active() == self.is_active(),
            r.stop_pending() == self.stop_pending(),
    {
        let mut this = self;
        this.step = this.step + step;
        this
    }

    /// One interval has passed: while active, sets `scroll_x` of the mouse state to the step and
    /// sends the report.
    pub fn on_interval(&mut self, ctx: &mut ActionContext<'_>)
        ensures
            *final(self) == *old(self),
            match (old(self).is_active(), old(ctx).mouse_report) {
                (true, Some(report)) => {
                    let moved = MouseReport { scroll_x: old(self).step_value(), ..report };
                    &&& final(ctx).mouse_report == Some(moved)
                    &&& final(ctx).outputs@ == old(ctx).outputs@.push(Output::Mouse(moved))
                    &&& same_layers(old(ctx).layers, final(ctx).layers)
                },
                _ => unchanged(*old(ctx), *final(ctx)),
            },
    {
        if self.is_active {
            if let Some(report) = ctx.mouse_report {
                let mut report = report;
                report.scroll_x = self.step;
                ctx.mouse_report = Some(report);
                send(ctx, Output::Mouse(report));
            }
        }
    }
}

impl Action for ScrollX {
    open spec fn press_effect(&self, next: Self, before: ActionContext<'_>, after: ActionContext<'_>) -> bool {
        &&& unchanged(before, after)
        &&& next.step_value() == self.step_value()
        &&& next.interval_ms() == self.interval_ms()
        &&& next.is_active() == (self.is_active() || !self.stop_pending())
        &&& next.stop_pending() == (self.is_active() && self.stop_pending())
    }

    /// Starts sending reports, unless they are being sent already or a release cancels the press.
    fn on_press(&mut self, ctx: &mut ActionContext<'_>) {
        if !self.is_active {
            if self.stop_pending {
                self.stop_pending = false;
            } else {
                self.is_active = true;
            }
        }
    }

    open spec fn release_effect(&self, next: Self, before: ActionContext<'_>, after: ActionContext<'_>) -> bool {
        &&& unchanged(before, after)
        &&& next.step_value() == self.step_value()
        &&& next.interval_ms() == self.interval_ms()
        &&& !next.is_active()
        &&& next.stop_pending() == !self.is_active()
    }

    /// Stops sending reports.
    fn on_release(&mut self, ctx: &mut ActionContext<'_>) {
        if self.is_active {
            self.is_active = false;
            self.stop_pending = false;
        } else {
            self.stop_pending = true;
        }
    }
}

/// Scrolls vertically while the key is held: every interval the runner calls [`ScrollY::on_interval`], which
/// sets the report's `scroll_y` to the step and sends the report.
pub struct ScrollY {
    interval_ms: u64,
    step: i8,
    is_active: bool,
    stop_pending: bool,
}

impl ScrollY {
    /// The time between two reports, in milliseconds.
    pub closed spec fn interval_ms(&self) -> u64 {
        self.interval_ms
    }

    /// The value of `scroll_y` in each report.
    pub closed spec fn step_value(&self) -> i8 {
        self.step
    }

    /// Whether reports are being sent.
    pub closed spec fn is_active(&self) -> bool {
        self.is_active
    }

    /// Whether a release came while no reports were sent; it cancels the next press.
    pub closed spec fn stop_pending(&self) -> bool {
        self.stop_pending
    }

    /// An action with the step `step` and an interval of 32 ms.
    pub fn with_step(step: i8) -> (r: Self)
        ensures
            r.step_value() == step,
            r.interval_ms() == 32,
            !r.is_active(),
            !r.stop_pending(),
    {
        ScrollY { interval_ms: 32, step, is_active: false, stop_pending: false }
    }

    /// Scrolls up.
    pub fn up() -> (r: Self)
        ensures
            r.step_value() == 1,
            r.interval_ms() == 32,
            !r.is_active(),
            !r.stop_pending(),
    {
        Self::with_step(1)
    }

    /// Scrolls down.
    pub fn down() -> (r: Self)
        ensures
            r.step_value() == -1,
            r.interval_ms() == 32,
            !r.is_active(),
            !r.stop_pending(),
    {
        Self::with_step(-1)
    }

    /// Sets the time between two reports, in milliseconds.
    pub fn interval(self, interval_ms: u64) -> (r: Self)
        ensures
            r.interval_ms() == interval_ms,
            r.step_value() == self.step_value(),
            r.is_active() == self.is_active(),
            r.stop_pending() == self.stop_pending(),
    {
        let mut this = self;
        this.interval_ms = interval_ms;
        this
    }

    /// Adds `step` to the step.
    pub fn step(self, step: i8) -> (r: Self)
        requires
            i8::MIN <= self.step_value() + step <= i8::MAX,
        ensures
            r.step_value() == self.step_value() + step,
            r.interval_ms() == self.interval_ms(),
            r.is_active() == self.is_active(),
            r.stop_pending() == self.stop_pending(),
    {
        let mut this = self;
        this.step = this.step + step;
        this
    }

    /// One interval has passed: while active, sets `scroll_y` of the mouse state to the step and
    /// sends the report.
    pub fn on_interval(&mut self, ctx: &mut ActionContext<'_>)
        ensures
            *final(self) == *old(self),
            match (old(self).is_active(), old(ctx).mouse_report) {
                (true, Some(report)) => {
                    let moved = MouseReport { scroll_y: old(self).step_value(), ..report };
                    &&& final(ctx).mouse_report == Some(moved)
                    &&& final(ctx).outputs@ == old(ctx).outputs@.push(Output::Mouse(moved))
                    &&& same_layers(old(ctx).layers, final(ctx).layers)
                },
                _ => unchanged(*old(ctx), *final(ctx)),
            },
    {
        if self.is_active {
            if let Some(report) = ctx.mouse_report {
                let mut report = report;
                report.scroll_y = self.step;
                ctx.mouse_report = Some(report);
                send(ctx, Output::Mouse(report));
            }
        }
    }
}

impl Action for ScrollY {
    open spec fn press_effect(&self, next: Self, before: ActionContext<'_>, after: ActionContext<'_>) -> bool {
        &&& unchanged(before, after)
        &&& next.step_value() == self.step_value()
        &&& next.interval_ms() == self.interval_ms()
        &&& next.is_active() == (self.is_active() || !self.stop_pending())
        &&& next.stop_pending() == (self.is_active() && self.stop_pending())
    }

    /// Starts sending reports, unless they are being sent already or a release cancels the press.
    fn on_press(&mut self, ctx: &mut ActionContext<'_>) {
        if !self.is_active {
            if self.stop_pending {
                self.stop_pending = false;
            } else {
                self.is_active = true;
            }
        }
    }

    open spec fn release_effect(&self, next: Self, before: ActionContext<'_>, after: ActionContext<'_>) -> bool {
        &&& unchanged(before, after)
        &&& next.step_value() == self.step_value()
        &&& next.interval_ms() == self.interval_ms()
        &&& !next.is_active()
        &&& next.stop_pending() == !self.is_active()
    }

    /// Stops sending reports.
    fn on_release(&mut self, ctx: &mut ActionContext<'_>) {
        if self.is_active {
            self.is_active = false;
            self.stop_pending = false;
        } else {
            self.stop_pending = true;
        }
    }
}

} // verus!
