//! Key actions: what a key does when it is pressed and released.
//!
//! An action runs against an [`ActionContext`]: the layer manager, if the device has one, and the
//! messages that the action sends, in order. Actions that wait (for a timer or for other keys)
//! are state machines whose waits end by calls from the runner.
use crate::ble::Message as BleMessage;
use crate::device::Address;
use crate::keyboard::{ExternalMessage, InvalidChildActionIndex, Key, Message as KeyMessage};
use crate::layer::{
    after_release, entry_key, next_key, push_result, ConditionalLayer, LayerId,
    LayerManagerEntry, LayerManagerQuery, top_layer,
};
use crate::mouse::MouseReport;
use crate::usb_ble::{Message as UsbBleMessage, TransportSelection};
use vstd::prelude::*;

verus! {

/// Requests to switch an external transport on or off.
#[derive(Debug, Clone, Copy)]
pub enum ToggleMessage {
    /// Switches the transport of the device with the address on if it is off, and off if it is on.
    Toggle(Address),
    /// Switches the transport of the device with the address on.
    Activate(Address),
    /// Switches the transport of the device with the address off.
    Deactivate(Address),
}

/// A message that an action sends.
#[derive(Debug, Clone, Copy)]
pub enum Output {
    /// To the external transport (the host).
    External(ExternalMessage),
    /// To the transport switch.
    Toggle(ToggleMessage),
    /// To the BLE transport.
    Ble(BleMessage),
    /// To the combined USB and BLE transport.
    UsbBle(UsbBleMessage),
    /// A mouse report to the external transport (the host).
    Mouse(MouseReport),
}

/// What an action works with.
pub struct ActionContext<'a> {
    /// The layer manager, if the device has one.
    pub layers: Option<LayerManagerQuery<'a>>,
    /// The state of the mouse, if the device has one.
    pub mouse_report: Option<MouseReport>,
    /// The messages sent so far, in order.
    pub outputs: Vec<Output>,
}

/// Whether the layer manager, if there is one, is well formed.
pub open spec fn layers_wf(layers: Option<LayerManagerQuery<'_>>) -> bool {
    layers matches Some(q) ==> q.inner.wf()
}

/// Whether the layer manager is the same before and after.
pub open spec fn same_layers(before: Option<LayerManagerQuery<'_>>, after: Option<LayerManagerQuery<'_>>) -> bool {
    match before {
        Some(q) => after matches Some(q2) && q2.inner.entries() == q.inner.entries()
            && q2.inner.activated() == q.inner.activated() && q2.inner.conditional_layers()
            == q.inner.conditional_layers(),
        None => after.is_none(),
    }
}

/// Whether the context changed only by sending `output`.
pub open spec fn sent(before: ActionContext<'_>, after: ActionContext<'_>, output: Output) -> bool {
    &&& after.outputs@ == before.outputs@.push(output)
    &&& same_layers(before.layers, after.layers)
    &&& after.mouse_report == before.mouse_report
}

/// Whether the context did not change.
pub open spec fn unchanged(before: ActionContext<'_>, after: ActionContext<'_>) -> bool {
    &&& after.outputs@ == before.outputs@
    &&& same_layers(before.layers, after.layers)
    &&& after.mouse_report == before.mouse_report
}

/// Sends `output`.
pub(crate) fn send(ctx: &mut ActionContext<'_>, output: Output)
    ensures
        sent(*old(ctx), *final(ctx), output),
{
    ctx.outputs.push(output);
}

/// Whether `action` stayed as it was and the context changed only by sending `output`.
pub open spec fn sends<T>(
    action: T,
    next: T,
    before: ActionContext<'_>,
    after: ActionContext<'_>,
    output: Output,
) -> bool {
    next == action && sent(before, after, output)
}

/// Whether neither `action` nor the context changed.
pub open spec fn stays<T>(action: T, next: T, before: ActionContext<'_>, after: ActionContext<'_>) -> bool {
    next == action && unchanged(before, after)
}

/// What a key does.
///
/// Each action states what a press and a release do: the action goes from `self` to `next`, and
/// the context from `before` to `after`.
pub trait Action: Sized {
    /// What a press does.
    spec fn press_effect(&self, next: Self, before: ActionContext<'_>, after: ActionContext<'_>) -> bool;

    /// What a release does.
    spec fn release_effect(&self, next: Self, before: ActionContext<'_>, after: ActionContext<'_>) -> bool;

    /// Runs when the key is pressed.
    fn on_press(&mut self, ctx: &mut ActionContext<'_>)
        requires
            layers_wf(old(ctx).layers),
        ensures
            layers_wf(final(ctx).layers),
            old(self).press_effect(*final(self), *old(ctx), *final(ctx)),
    ;

    /// Runs when the key is released.
    fn on_release(&mut self, ctx: &mut ActionContext<'_>)
        requires
            layers_wf(old(ctx).layers),
        ensures
            layers_wf(final(ctx).layers),
            old(self).release_effect(*final(self), *old(ctx), *final(ctx)),
    ;
}

/// Does nothing.
#[derive(Debug, Clone, Copy)]
pub struct NoOp;

impl Action for NoOp {
    open spec fn press_effect(&self, next: Self, before: ActionContext<'_>, after: ActionContext<'_>) -> bool {
        stays(*self, next, before, after)
    }

    fn on_press(&mut self, ctx: &mut ActionContext<'_>) {
    }

    open spec fn release_effect(&self, next: Self, before: ActionContext<'_>, after: ActionContext<'_>) -> bool {
        stays(*self, next, before, after)
    }

    fn on_release(&mut self, ctx: &mut ActionContext<'_>) {
    }
}

impl Action for Key {
    open spec fn press_effect(&self, next: Self, before: ActionContext<'_>, after: ActionContext<'_>) -> bool {
        sends(*self, next, before, after, Output::External(ExternalMessage::KeyPress(*self)))
    }

    /// Sends the key press to the host.
    fn on_press(&mut self, ctx: &mut ActionContext<'_>) {
        send(ctx, Output::External(ExternalMessage::KeyPress(*self)));
    }

    open spec fn release_effect(&self, next: Self, before: ActionContext<'_>, after: ActionContext<'_>) -> bool {
        sends(*self, next, before, after, Output::External(ExternalMessage::KeyRelease(*self)))
    }

    /// Sends the key release to the host.
    fn on_release(&mut self, ctx: &mut ActionContext<'_>) {
        send(ctx, Output::External(ExternalMessage::KeyRelease(*self)));
    }
}


/// Switches the external transport of the device with the address on or off.
pub struct ToggleExternalTransport(pub Address);

impl Action for ToggleExternalTransport {
    open spec fn press_effect(&self, next: Self, before: ActionContext<'_>, after: ActionContext<'_>) -> bool {
        sends(*self, next, before, after, Output::Toggle(ToggleMessage::Toggle(self.0)))
    }

    fn on_press(&mut self, ctx: &mut ActionContext<'_>) {
        send(ctx, Output::Toggle(ToggleMessage::Toggle(self.0)));
    }

    open spec fn release_effect(&self, next: Self, before: ActionContext<'_>, after: ActionContext<'_>) -> bool {
        stays(*self, next, before, after)
    }

    fn on_release(&mut self, ctx: &mut ActionContext<'_>) {
    }
}

/// Switches the external transport of the device with the address on.
pub struct ActivateExternalTransport(pub Address);

impl Action for ActivateExternalTransport {
    open spec fn press_effect(&self, next: Self, before: ActionContext<'_>, after: ActionContext<'_>) -> bool {
        sends(*self, next, before, after, Output::Toggle(ToggleMessage::Activate(self.0)))
    }

    fn on_press(&mut self, ctx: &mut ActionContext<'_>) {
        send(ctx, Output::Toggle(ToggleMessage::Activate(self.0)));
    }

    open spec fn release_effect(&self, next: Self, before: ActionContext<'_>, after: ActionContext<'_>) -> bool {
        stays(*self, next, before, after)
    }

    fn on_release(&mut self, ctx: &mut ActionContext<'_>) {
    }
}

/// Switches the external transport of the device with the address off.
pub struct DeactivateExternalTransport(pub Address);

impl Action for DeactivateExternalTransport {
    open spec fn press_effect(&self, next: Self, before: ActionContext<'_>, after: ActionContext<'_>) -> bool {
        sends(*self, next, before, after, Output::Toggle(ToggleMessage::Deactivate(self.0)))
    }

    fn on_press(&mut self, ctx: &mut ActionContext<'_>) {
        send(ctx, Output::Toggle(ToggleMessage::Deactivate(self.0)));
    }

    open spec fn release_effect(&self, next: Self, before: ActionContext<'_>, after: ActionContext<'_>) -> bool {
        stays(*self, next, before, after)
    }

    fn on_release(&mut self, ctx: &mut ActionContext<'_>) {
    }
}

/// Disconnects the active BLE connection.
pub struct BleDisconnectActive;

impl Action for BleDisconnectActive {
    open spec fn press_effect(&self, next: Self, before: ActionContext<'_>, after: ActionContext<'_>) -> bool {
        sends(*self, next, before, after, Output::Ble(BleMessage::DisconnectActive))
    }

    fn on_press(&mut self, ctx: &mut ActionContext<'_>) {
        send(ctx, Output::Ble(BleMessage::DisconnectActive));
    }

    open spec fn release_effect(&self, next: Self, before: ActionContext<'_>, after: ActionContext<'_>) -> bool {
        stays(*self, next, before, after)
    }

    fn on_release(&mut self, ctx: &mut ActionContext<'_>) {
    }
}

/// Removes the bond information of the BLE profile with the index.
pub struct BleClear(pub u8);

impl Action for BleClear {
    open spec fn press_effect(&self, next: Self, before: ActionContext<'_>, after: ActionContext<'_>) -> bool {
        sends(*self, next, before, after, Output::Ble(BleMessage::Clear { profile_index: self.0 }))
    }

    fn on_press(&mut self, ctx: &mut ActionContext<'_>) {
        send(ctx, Output::Ble(BleMessage::Clear { profile_index: self.0 }));
    }

    open spec fn release_effect(&self, next: Self, before: ActionContext<'_>, after: ActionContext<'_>) -> bool {
        stays(*self, next, before, after)
    }

    fn on_release(&mut self, ctx: &mut ActionContext<'_>) {
    }
}

/// Removes the bond information of the active BLE profile.
pub struct BleClearActive;

impl Action for BleClearActive {
    open spec fn press_effect(&self, next: Self, before: ActionContext<'_>, after: ActionContext<'_>) -> bool {
        sends(*self, next, before, after, Output::Ble(BleMessage::ClearActive))
    }

    fn on_press(&mut self, ctx: &mut ActionContext<'_>) {
        send(ctx, Output::Ble(BleMessage::ClearActive));
    }

    open spec fn release_effect(&self, next: Self, before: ActionContext<'_>, after: ActionContext<'_>) -> bool {
        stays(*self, next, before, after)
    }

    fn on_release(&mut self, ctx: &mut ActionContext<'_>) {
    }
}

/// Removes the bond information of all BLE profiles.
pub struct BleClearAll;

impl Action for BleClearAll {
    open spec fn press_effect(&self, next: Self, before: ActionContext<'_>, after: ActionContext<'_>) -> bool {
        sends(*self, next, before, after, Output::Ble(BleMessage::ClearAll))
    }

    fn on_press(&mut self, ctx: &mut ActionContext<'_>) {
        send(ctx, Output::Ble(BleMessage::ClearAll));
    }

    open spec fn release_effect(&self, next: Self, before: ActionContext<'_>, after: ActionContext<'_>) -> bool {
        stays(*self, next, before, after)
    }

    fn on_release(&mut self, ctx: &mut ActionContext<'_>) {
    }
}

/// Switches to the BLE profile with the index.
pub struct BleSelectProfile(pub u8);

impl Action for BleSelectProfile {
    open spec fn press_effect(&self, next: Self, before: ActionContext<'_>, after: ActionContext<'_>) -> bool {
        sends(*self, next, before, after, Output::Ble(BleMessage::SelectProfile { index: self.0 }))
    }

    fn on_press(&mut self, ctx: &mut ActionContext<'_>) {
        send(ctx, Output::Ble(BleMessage::SelectProfile { index: self.0 }));
    }

    open spec fn release_effect(&self, next: Self, before: ActionContext<'_>, after: ActionContext<'_>) -> bool {
        stays(*self, next, before, after)
    }

    fn on_release(&mut self, ctx: &mut ActionContext<'_>) {
    }
}

/// Switches to the next BLE profile.
pub struct BleNextProfile;

impl Action for BleNextProfile {
    open spec fn press_effect(&self, next: Self, before: ActionContext<'_>, after: ActionContext<'_>) -> bool {
        sends(*self, next, before, after, Output::Ble(BleMessage::SelectNextProfile))
    }

    fn on_press(&mut self, ctx: &mut ActionContext<'_>) {
        send(ctx, Output::Ble(BleMessage::SelectNextProfile));
    }

    open spec fn release_effect(&self, next: Self, before: ActionContext<'_>, after: ActionContext<'_>) -> bool {
        stays(*self, next, before, after)
    }

    fn on_release(&mut self, ctx: &mut ActionContext<'_>) {
    }
}

/// Switches to the previous BLE profile.
pub struct BlePreviousProfile;

impl Action for BlePreviousProfile {
    open spec fn press_effect(&self, next: Self, before: ActionContext<'_>, after: ActionContext<'_>) -> bool {
        sends(*self, next, before, after, Output::Ble(BleMessage::SelectPreviousProfile))
    }

    fn on_press(&mut self, ctx: &mut ActionContext<'_>) {
        send(ctx, Output::Ble(BleMessage::SelectPreviousProfile));
    }

    open spec fn release_effect(&self, next: Self, before: ActionContext<'_>, after: ActionContext<'_>) -> bool {
        stays(*self, next, before, after)
    }

    fn on_release(&mut self, ctx: &mut ActionContext<'_>) {
    }
}

/// Switches the active output to USB.
///
/// Only has an effect if the combined USB and BLE transport is the external transport.
pub struct SwitchToUsb;

impl Action for SwitchToUsb {
    open spec fn press_effect(&self, next: Self, before: ActionContext<'_>, after: ActionContext<'_>) -> bool {
        sends(*self, next, before, after, Output::UsbBle(UsbBleMessage::SetActive(TransportSelection::Usb)))
    }

    fn on_press(&mut self, ctx: &mut ActionContext<'_>) {
        send(ctx, Output::UsbBle(UsbBleMessage::SetActive(TransportSelection::Usb)));
    }

    open spec fn release_effect(&self, next: Self, before: ActionContext<'_>, after: ActionContext<'_>) -> bool {
        stays(*self, next, before, after)
    }

    fn on_release(&mut self, ctx: &mut ActionContext<'_>) {
    }
}

/// Switches the active output to BLE.
///
/// Only has an effect if the combined USB and BLE transport is the external transport.
pub struct SwitchToBle;

impl Action for SwitchToBle {
    open spec fn press_effect(&self, next: Self, before: ActionContext<'_>, after: ActionContext<'_>) -> bool {
        sends(*self, next, before, after, Output::UsbBle(UsbBleMessage::SetActive(TransportSelection::Ble)))
    }

    fn on_press(&mut self, ctx: &mut ActionContext<'_>) {
        send(ctx, Output::UsbBle(UsbBleMessage::SetActive(TransportSelection::Ble)));
    }

    open spec fn release_effect(&self, next: Self, before: ActionContext<'_>, after: ActionContext<'_>) -> bool {
        stays(*self, next, before, after)
    }

    fn on_release(&mut self, ctx: &mut ActionContext<'_>) {
    }
}


/// Activates a layer while the key is held.
pub struct Layer {
    pub layer: LayerId,
    entry: Option<LayerManagerEntry>,
}

/// The stack, the activated conditional layers and the key of the new entry after a layer key is
/// pressed: the entry it still holds (with key `held`) is removed first, then `layer` is pushed
/// if there is room for it.
pub open spec fn layer_press_result(
    entries: Seq<(u64, LayerId)>,
    activated: Seq<(LayerId, LayerId, u64)>,
    conds: Seq<ConditionalLayer>,
    held: Option<u64>,
    layer: LayerId,
) -> (Seq<(u64, LayerId)>, Seq<(LayerId, LayerId, u64)>, Option<u64>) {
    let released = after_release(entries, activated, held);
    if next_key(released.0) + conds.len() < u64::MAX {
        let pushed = push_result(released.0, released.1, conds, layer);
        (pushed.0, pushed.1, Some(next_key(released.0) as u64))
    } else {
        (released.0, released.1, None)
    }
}

impl Layer {
    /// The entry of the layer while the key is held.
    pub closed spec fn entry(&self) -> Option<LayerManagerEntry> {
        self.entry
    }

    /// The layer that the action activates.
    pub closed spec fn activates(&self) -> LayerId {
        self.layer
    }

    /// An action that activates `layer`.
    pub fn new(layer: LayerId) -> (r: Self)
        ensures
            r.activates() == layer,
            r.entry().is_none(),
    {
        Layer { layer, entry: None }
    }
}

impl Action for Layer {
    open spec fn press_effect(&self, next: Self, before: ActionContext<'_>, after: ActionContext<'_>) -> bool {
        &&& next.activates() == self.activates()
        &&& after.outputs@ == before.outputs@
        &&& after.mouse_report == before.mouse_report
        &&& match before.layers {
            None => after.layers.is_none() && next.entry().is_none(),
            Some(q) => after.layers matches Some(q2) && {
                let r = layer_press_result(
                    q.inner.entries(),
                    q.inner.activated(),
                    q.inner.conditional_layers(),
                    entry_key(self.entry()),
                    self.activates(),
                );
                &&& q2.inner.entries() == r.0
                &&& q2.inner.activated() == r.1
                &&& q2.inner.conditional_layers() == q.inner.conditional_layers()
                &&& entry_key(next.entry()) == r.2
            },
        }
    }

    /// Pushes the layer on the layer stack, after removing the entry of an earlier press that was
    /// not released.
    fn on_press(&mut self, ctx: &mut ActionContext<'_>) {
        let held = self.entry.take();
        match &mut ctx.layers {
            Some(q) => {
                q.inner.release(held);
                self.entry = q.inner.try_push(self.layer);
            },
            None => {},
        }
    }

    open spec fn release_effect(&self, next: Self, before: ActionContext<'_>, after: ActionContext<'_>) -> bool {
        &&& next.activates() == self.activates()
        &&& next.entry().is_none()
        &&& after.outputs@ == before.outputs@
        &&& after.mouse_report == before.mouse_report
        &&& match before.layers {
            None => after.layers.is_none(),
            Some(q) => after.layers matches Some(q2) && (q2.inner.entries(), q2.inner.activated())
                == after_release(q.inner.entries(), q.inner.activated(), entry_key(self.entry()))
                && q2.inner.conditional_layers() == q.inner.conditional_layers(),
        }
    }

    /// Removes the layer's entry from the layer stack.
    fn on_release(&mut self, ctx: &mut ActionContext<'_>) {
        let held = self.entry.take();
        match &mut ctx.layers {
            Some(q) => {
                q.inner.release(held);
            },
            None => {},
        }
    }
}


/// A fixed group of actions, addressed by their positions.
pub trait ActionContainer: Sized {
    /// The number of actions in the group.
    spec fn num_children(&self) -> nat;

    /// What a press of the action at `index` does: the group goes from `self` to `next`, and the
    /// context from `before` to `after`.
    spec fn child_press_effect(
        &self,
        index: int,
        next: Self,
        before: ActionContext<'_>,
        after: ActionContext<'_>,
    ) -> bool;

    /// What a release of the action at `index` does.
    spec fn child_release_effect(
        &self,
        index: int,
        next: Self,
        before: ActionContext<'_>,
        after: ActionContext<'_>,
    ) -> bool;

    /// The number of actions in the group.
    fn len(&self) -> (r: usize)
        ensures
            r == self.num_children(),
    ;

    /// Presses the action at `child_index`; an error if there is none.
    fn child_on_press(&mut self, child_index: usize, ctx: &mut ActionContext<'_>) -> (r: Result<
        (),
        InvalidChildActionIndex,
    >)
        requires
            layers_wf(old(ctx).layers),
        ensures
            layers_wf(final(ctx).layers),
            final(self).num_children() == old(self).num_children(),
            r is Ok <==> child_index < old(self).num_children(),
            match r {
                Ok(()) => old(self).child_press_effect(
                    child_index as int,
                    *final(self),
                    *old(ctx),
                    *final(ctx),
                ),
                Err(e) => e.index == child_index && stays(
                    *old(self),
                    *final(self),
                    *old(ctx),
                    *final(ctx),
                ),
            },
    ;

    /// Releases the action at `child_index`; an error if there is none.
    fn child_on_release(&mut self, child_index: usize, ctx: &mut ActionContext<'_>) -> (r: Result<
        (),
        InvalidChildActionIndex,
    >)
        requires
            layers_wf(old(ctx).layers),
        ensures
            layers_wf(final(ctx).layers),
            final(self).num_children() == old(self).num_children(),
            r is Ok <==> child_index < old(self).num_children(),
            match r {
                Ok(()) => old(self).child_release_effect(
                    child_index as int,
                    *final(self),
                    *old(ctx),
                    *final(ctx),
                ),
                Err(e) => e.index == child_index && stays(
                    *old(self),
                    *final(self),
                    *old(ctx),
                    *final(ctx),
                ),
            },
    ;
}

/// A group of actions that are pressed and released together.
pub trait ConcurrentActionContainer: Sized {
    /// What pressing all actions does: the group goes from `self` to `next`, and the context from
    /// `before` to `after`.
    spec fn all_press_effect(&self, next: Self, before: ActionContext<'_>, after: ActionContext<'_>) -> bool;

    /// What releasing all actions does.
    spec fn all_release_effect(&self, next: Self, before: ActionContext<'_>, after: ActionContext<'_>) -> bool;

    /// Presses all actions of the group, the first first.
    fn all_on_press(&mut self, ctx: &mut ActionContext<'_>)
        requires
            layers_wf(old(ctx).layers),
        ensures
            layers_wf(final(ctx).layers),
            old(self).all_press_effect(*final(self), *old(ctx), *final(ctx)),
    ;

    /// Releases all actions of the group, the first first.
    fn all_on_release(&mut self, ctx: &mut ActionContext<'_>)
        requires
            layers_wf(old(ctx).layers),
        ensures
            layers_wf(final(ctx).layers),
            old(self).all_release_effect(*final(self), *old(ctx), *final(ctx)),
    ;
}

impl<A0: Action> ActionContainer for (A0,) {
    open spec fn num_children(&self) -> nat {
        1
    }

    open spec fn child_press_effect(
        &self,
        index: int,
        next: Self,
        before: ActionContext<'_>,
        after: ActionContext<'_>,
    ) -> bool {
        index == 0 && self.0.press_effect(next.0, before, after)
    }

    open spec fn child_release_effect(
        &self,
        index: int,
        next: Self,
        before: ActionContext<'_>,
        after: ActionContext<'_>,
    ) -> bool {
        index == 0 && self.0.release_effect(next.0, before, after)
    }

    fn len(&self) -> (r: usize) {
        1
    }

    fn child_on_press(&mut self, child_index: usize, ctx: &mut ActionContext<'_>) -> (r: Result<
        (),
        InvalidChildActionIndex,
    >) {
        match child_index {
            0 => Ok(self.0.on_press(ctx)),
            _ => Err(InvalidChildActionIndex { index: child_index }),
        }
    }

    fn child_on_release(&mut self, child_index: usize, ctx: &mut ActionContext<'_>) -> (r: Result<
        (),
        InvalidChildActionIndex,
    >) {
        match child_index {
            0 => Ok(self.0.on_release(ctx)),
            _ => Err(InvalidChildActionIndex { index: child_index }),
        }
    }
}

impl<A0: Action, A1: Action> ActionContainer for (A0, A1) {
    open spec fn num_children(&self) -> nat {
        2
    }

    open spec fn child_press_effect(
        &self,
        index: int,
        next: Self,
        before: ActionContext<'_>,
        after: ActionContext<'_>,
    ) -> bool {
        if index == 0 {
            self.0.press_effect(next.0, before, after) && next.1 == self.1
        } else {
            index == 1 && next.0 == self.0 && self.1.press_effect(next.1, before, after)
        }
    }

    open spec fn child_release_effect(
        &self,
        index: int,
        next: Self,
        before: ActionContext<'_>,
        after: ActionContext<'_>,
    ) -> bool {
        if index == 0 {
            self.0.release_effect(next.0, before, after) && next.1 == self.1
        } else {
            index == 1 && next.0 == self.0 && self.1.release_effect(next.1, before, after)
        }
    }

    fn len(&self) -> (r: usize) {
        2
    }

    fn child_on_press(&mut self, child_index: usize, ctx: &mut ActionContext<'_>) -> (r: Result<
        (),
        InvalidChildActionIndex,
    >) {
        match child_index {
            0 => Ok(self.0.on_press(ctx)),
            1 => Ok(self.1.on_press(ctx)),
            _ => Err(InvalidChildActionIndex { index: child_index }),
        }
    }

    fn child_on_release(&mut self, child_index: usize, ctx: &mut ActionContext<'_>) -> (r: Result<
        (),
        InvalidChildActionIndex,
    >) {
        match child_index {
            0 => Ok(self.0.on_release(ctx)),
            1 => Ok(self.1.on_release(ctx)),
            _ => Err(InvalidChildActionIndex { index: child_index }),
        }
    }
}

impl<A0: Action, A1: Action, A2: Action> ActionContainer for (A0, A1, A2) {
    open spec fn num_children(&self) -> nat {
        3
    }

    open spec fn child_press_effect(
        &self,
        index: int,
        next: Self,
        before: ActionContext<'_>,
        after: ActionContext<'_>,
    ) -> bool {
        if index == 0 {
            self.0.press_effect(next.0, before, after) && next.1 == self.1 && next.2 == self.2
        } else if index == 1 {
            next.0 == self.0 && self.1.press_effect(next.1, before, after) && next.2 == self.2
        } else {
            index == 2 && next.0 == self.0 && next.1 == self.1 && self.2.press_effect(
                next.2,
                before,
                after,
            )
        }
    }

    open spec fn child_release_effect(
        &self,
        index: int,
        next: Self,
        before: ActionContext<'_>,
        after: ActionContext<'_>,
    ) -> bool {
        if index == 0 {
            self.0.release_effect(next.0, before, after) && next.1 == self.1 && next.2 == self.2
        } else if index == 1 {
            next.0 == self.0 && self.1.release_effect(next.1, before, after) && next.2 == self.2
        } else {
            index == 2 && next.0 == self.0 && next.1 == self.1 && self.2.release_effect(
                next.2,
                before,
                after,
            )
        }
    }

    fn len(&self) -> (r: usize) {
        3
    }

    fn child_on_press(&mut self, child_index: usize, ctx: &mut ActionContext<'_>) -> (r: Result<
        (),
        InvalidChildActionIndex,
    >) {
        match child_index {
            0 => Ok(self.0.on_press(ctx)),
            1 => Ok(self.1.on_press(ctx)),
            2 => Ok(self.2.on_press(ctx)),
            _ => Err(InvalidChildActionIndex { index: child_index }),
        }
    }

    fn child_on_release(&mut self, child_index: usize, ctx: &mut ActionContext<'_>) -> (r: Result<
        (),
        InvalidChildActionIndex,
    >) {
        match child_index {
            0 => Ok(self.0.on_release(ctx)),
            1 => Ok(self.1.on_release(ctx)),
            2 => Ok(self.2.on_release(ctx)),
            _ => Err(InvalidChildActionIndex { index: child_index }),
        }
    }
}

impl<A0: Action> ConcurrentActionContainer for (A0,) {
    open spec fn all_press_effect(&self, next: Self, before: ActionContext<'_>, after: ActionContext<'_>) -> bool {
        self.0.press_effect(next.0, before, after)
    }

    open spec fn all_release_effect(&self, next: Self, before: ActionContext<'_>, after: ActionContext<'_>) -> bool {
        self.0.release_effect(next.0, before, after)
    }

    fn all_on_press(&mut self, ctx: &mut ActionContext<'_>) {
        self.0.on_press(ctx);
    }

    fn all_on_release(&mut self, ctx: &mut ActionContext<'_>) {
        self.0.on_release(ctx);
    }
}

impl<A0: Action, A1: Action> ConcurrentActionContainer for (A0, A1) {
    open spec fn all_press_effect(&self, next: Self, before: ActionContext<'_>, after: ActionContext<'_>) -> bool {
        exists|m: ActionContext<'_>|
            self.0.press_effect(next.0, before, m) && #[trigger] self.1.press_effect(next.1, m, after)
    }

    open spec fn all_release_effect(&self, next: Self, before: ActionContext<'_>, after: ActionContext<'_>) -> bool {
        exists|m: ActionContext<'_>|
            self.0.release_effect(next.0, before, m) && #[trigger] self.1.release_effect(next.1, m, after)
    }

    fn all_on_press(&mut self, ctx: &mut ActionContext<'_>) {
        self.0.on_press(ctx);
        let ghost m = *ctx;
        self.1.on_press(ctx);
        assert(old(self).1.press_effect(self.1, m, *ctx));
    }

    fn all_on_release(&mut self, ctx: &mut ActionContext<'_>) {
        self.0.on_release(ctx);
        let ghost m = *ctx;
        self.1.on_release(ctx);
        assert(old(self).1.release_effect(self.1, m, *ctx));
    }
}

impl<A0: Action, A1: Action, A2: Action> ConcurrentActionContainer for (A0, A1, A2) {
    open spec fn all_press_effect(&self, next: Self, before: ActionContext<'_>, after: ActionContext<'_>) -> bool {
        exists|m1: ActionContext<'_>, m2: ActionContext<'_>|
            #![trigger self.1.press_effect(next.1, m1, m2)]
            self.0.press_effect(next.0, before, m1) && self.1.press_effect(next.1, m1, m2)
                && self.2.press_effect(next.2, m2, after)
    }

    open spec fn all_release_effect(&self, next: Self, before: ActionContext<'_>, after: ActionContext<'_>) -> bool {
        exists|m1: ActionContext<'_>, m2: ActionContext<'_>|
            #![trigger self.1.release_effect(next.1, m1, m2)]
            self.0.release_effect(next.0, before, m1) && self.1.release_effect(next.1, m1, m2)
                && self.2.release_effect(next.2, m2, after)
    }

    fn all_on_press(&mut self, ctx: &mut ActionContext<'_>) {
        self.0.on_press(ctx);
        let ghost m1 = *ctx;
        self.1.on_press(ctx);
        let ghost m2 = *ctx;
        self.2.on_press(ctx);
        assert(old(self).1.press_effect(self.1, m1, m2));
    }

    fn all_on_release(&mut self, ctx: &mut ActionContext<'_>) {
        self.0.on_release(ctx);
        let ghost m1 = *ctx;
        self.1.on_release(ctx);
        let ghost m2 = *ctx;
        self.2.on_release(ctx);
        assert(old(self).1.release_effect(self.1, m1, m2));
    }
}

/// Presses all actions of a group together, and releases them together.
pub struct Concurrent<A> {
    action_container: A,
}

impl<A> Concurrent<A> {
    /// An action that presses and releases all of `action_container` together.
    pub fn new(action_container: A) -> (r: Self)
        ensures
            r.container() == action_container,
    {
        Concurrent { action_container }
    }

    /// The group of actions.
    pub closed spec fn container(&self) -> A {
        self.action_container
    }
}

impl<A: ConcurrentActionContainer> Action for Concurrent<A> {
    open spec fn press_effect(&self, next: Self, before: ActionContext<'_>, after: ActionContext<'_>) -> bool {
        self.container().all_press_effect(next.container(), before, after)
    }

    open spec fn release_effect(&self, next: Self, before: ActionContext<'_>, after: ActionContext<'_>) -> bool {
        self.container().all_release_effect(next.container(), before, after)
    }

    fn on_press(&mut self, ctx: &mut ActionContext<'_>) {
        self.action_container.all_on_press(ctx);
    }

    fn on_release(&mut self, ctx: &mut ActionContext<'_>) {
        self.action_container.all_on_release(ctx);
    }
}

/// Whether pressing the first `k` actions of `group`, the first first, takes the group to `next`
/// and the context from `before` to `after`.
pub open spec fn pressed_in_order<A: ActionContainer>(
    group: A,
    next: A,
    before: ActionContext<'_>,
    after: ActionContext<'_>,
    k: nat,
) -> bool
    decreases k,
{
    if k == 0 {
        stays(group, next, before, after)
    } else {
        exists|mid: A, m: ActionContext<'_>|
            pressed_in_order(group, mid, before, m, (k - 1) as nat)
                && #[trigger] mid.child_press_effect(k - 1, next, m, after)
    }
}

/// Whether releasing the last `k` of the `n` actions of `group`, the last first, takes the group
/// to `next` and the context from `before` to `after`.
pub open spec fn released_in_reverse<A: ActionContainer>(
    group: A,
    next: A,
    before: ActionContext<'_>,
    after: ActionContext<'_>,
    n: nat,
    k: nat,
) -> bool
    decreases k,
{
    if k == 0 {
        stays(group, next, before, after)
    } else {
        exists|mid: A, m: ActionContext<'_>|
            released_in_reverse(group, mid, before, m, n, (k - 1) as nat)
                && #[trigger] mid.child_release_effect(n - k, next, m, after)
    }
}

/// Presses the actions of a group one after the other, from the first to the last, and releases
/// them from the last to the first.
pub struct Sequence<A> {
    action_container: A,
}

impl<A> Sequence<A> {
    /// An action that presses and releases `action_container` in sequence.
    pub fn new(action_container: A) -> (r: Self)
        ensures
            r.container() == action_container,
    {
        Sequence { action_container }
    }

    /// The group of actions.
    pub closed spec fn container(&self) -> A {
        self.action_container
    }
}

impl<A: ActionContainer> Action for Sequence<A> {
    open spec fn press_effect(&self, next: Self, before: ActionContext<'_>, after: ActionContext<'_>) -> bool {
        pressed_in_order(
            self.container(),
            next.container(),
            before,
            after,
            self.container().num_children(),
        )
    }

    open spec fn release_effect(&self, next: Self, before: ActionContext<'_>, after: ActionContext<'_>) -> bool {
        released_in_reverse(
            self.container(),
            next.container(),
            before,
            after,
            self.container().num_children(),
            self.container().num_children(),
        )
    }

    /// Presses every action of the group, the first first.
    fn on_press(&mut self, ctx: &mut ActionContext<'_>) {
        let ghost group = self.action_container;
        let ghost start = *ctx;
        let n = self.action_container.len();
        let mut i: usize = 0;
        while i < n
            invariant
                i <= n,
                n == self.action_container.num_children(),
                n == group.num_children(),
                layers_wf(ctx.layers),
                pressed_in_order(group, self.action_container, start, *ctx, i as nat),
            decreases n - i,
        {
            let ghost mid = self.action_container;
            let ghost m = *ctx;
            let r = self.action_container.child_on_press(i, ctx);
            assert(r is Ok);
            assert(mid.child_press_effect((i + 1) as nat - 1, self.action_container, m, *ctx));
            assert(pressed_in_order(group, self.action_container, start, *ctx, (i + 1) as nat));
            i += 1;
        }
    }

    /// Releases every action of the group, the last first.
    fn on_release(&mut self, ctx: &mut ActionContext<'_>) {
        let ghost group = self.action_container;
        let ghost start = *ctx;
        let n = self.action_container.len();
        let mut i: usize = n;
        while i > 0
            invariant
                i <= n,
                n == self.action_container.num_children(),
                n == group.num_children(),
                layers_wf(ctx.layers),
                released_in_reverse(group, self.action_container, start, *ctx, n as nat, (n - i) as nat),
            decreases i,
        {
            let ghost mid = self.action_container;
            let ghost m = *ctx;
            let r = self.action_container.child_on_release(i - 1, ctx);
            assert(r is Ok);
            assert(mid.child_release_effect(
                n as nat - (n - i + 1) as nat,
                self.action_container,
                m,
                *ctx,
            ));
            assert(released_in_reverse(
                group,
                self.action_container,
                start,
                *ctx,
                n as nat,
                (n - i + 1) as nat,
            ));
            i -= 1;
        }
    }
}

/// Switches an action on with one press and off with the next.
pub struct Toggle<A> {
    action: A,
    active: bool,
}

impl<A: Action> Toggle<A> {
    /// A toggle of `action`, which starts off.
    pub fn new(action: A) -> (r: Self)
        ensures
            r.action() == action,
            !r.is_active(),
    {
        Toggle { action, active: false }
    }

    /// The action that is switched.
    pub closed spec fn action(&self) -> A {
        self.action
    }

    /// Whether the action is switched on.
    pub closed spec fn is_active(&self) -> bool {
        self.active
    }
}

impl<A: Action> Action for Toggle<A> {
    open spec fn press_effect(&self, next: Self, before: ActionContext<'_>, after: ActionContext<'_>) -> bool {
        &&& next.is_active() == !self.is_active()
        &&& if self.is_active() {
            self.action().release_effect(next.action(), before, after)
        } else {
            self.action().press_effect(next.action(), before, after)
        }
    }

    open spec fn release_effect(&self, next: Self, before: ActionContext<'_>, after: ActionContext<'_>) -> bool {
        stays(*self, next, before, after)
    }

    /// Presses the action if it is off and releases it if it is on.
    fn on_press(&mut self, ctx: &mut ActionContext<'_>) {
        let active = self.active;
        if active {
            self.action.on_release(ctx);
        } else {
            self.action.on_press(ctx);
        }
        self.active = !active;
    }

    fn on_release(&mut self, ctx: &mut ActionContext<'_>) {
    }
}


/// Two presses of a toggle that is off press its action and then release it, and leave the
/// toggle off again.
pub proof fn law_toggle_presses_then_releases<A: Action>(
    t0: Toggle<A>,
    t1: Toggle<A>,
    t2: Toggle<A>,
    c0: ActionContext<'_>,
    c1: ActionContext<'_>,
    c2: ActionContext<'_>,
)
    requires
        !t0.is_active(),
        t0.press_effect(t1, c0, c1),
        t1.press_effect(t2, c1, c2),
    ensures
        t1.is_active(),
        !t2.is_active(),
        t0.action().press_effect(t1.action(), c0, c1),
        t1.action().release_effect(t2.action(), c1, c2),
{
}

/// The position of the first occurrence of `layer` in `ids`.
pub open spec fn first_position(ids: Seq<LayerId>, layer: LayerId) -> Option<int> {
    if exists|i: int| 0 <= i < ids.len() && ids[i] == layer {
        Some(choose|i: int| 0 <= i < ids.len() && ids[i] == layer && forall|j: int| 0 <= j < i ==> ids[j] != layer)
    } else {
        None
    }
}

/// Runs a different action depending on the active layer: the action at the position of the
/// active layer among `layer_ids`; nothing if the active layer is not among them.
pub struct PerLayer<A: ActionContainer> {
    actions: A,
    layer_ids: Vec<LayerId>,
    active_action_index: Option<usize>,
}

impl<A: ActionContainer> PerLayer<A> {
    /// Whether there is one layer for each action.
    pub closed spec fn wf(&self) -> bool {
        &&& self.layer_ids@.len() == self.actions.num_children()
        &&& self.active_action_index matches Some(i) ==> i < self.layer_ids@.len()
    }

    /// The actions, one for each layer.
    pub closed spec fn actions(&self) -> A {
        self.actions
    }

    /// The layer of each action.
    pub closed spec fn layer_ids(&self) -> Seq<LayerId> {
        self.layer_ids@
    }

    /// The position of the action that was pressed last, if any.
    pub closed spec fn active_index(&self) -> Option<usize> {
        self.active_action_index
    }

    /// An action that runs the action of `actions` at the position of the active layer among
    /// `layer_ids`; there is one layer for each action.
    pub fn new(actions: A, layer_ids: Vec<LayerId>) -> (r: Self)
        requires
            layer_ids@.len() == actions.num_children(),
        ensures
            r.actions() == actions,
            r.layer_ids() == layer_ids@,
            r.active_index().is_none(),
            r.wf(),
    {
        PerLayer { actions, layer_ids, active_action_index: None }
    }

    fn position_of(&self, layer: LayerId) -> (r: Option<usize>)
        ensures
            match first_position(self.layer_ids@, layer) {
                Some(i) => 0 <= i < self.layer_ids@.len() && (r matches Some(k) && k == i),
                None => r.is_none(),
            },
            r matches Some(i) ==> i < self.layer_ids@.len(),
    {
        let mut i: usize = 0;
        while i < self.layer_ids.len()
            invariant
                i <= self.layer_ids@.len(),
                forall|j: int| 0 <= j < i ==> self.layer_ids@[j] != layer,
            decreases self.layer_ids@.len() - i,
        {
            if self.layer_ids[i] == layer {
                proof {
                    let ids = self.layer_ids@;
                    assert(0 <= i < ids.len() && ids[i as int] == layer);
                    let c = choose|c: int|
                        0 <= c < ids.len() && ids[c] == layer && forall|j: int|
                            0 <= j < c ==> ids[j] != layer;
                    assert(forall|j: int| 0 <= j < i ==> ids[j] != layer);
                    if c < i {
                        assert(ids[c] != layer);
                    } else if c > i {
                        assert(ids[i as int] != layer);
                    }
                }
                return Some(i);
            }
            i += 1;
        }
        None
    }
}

/// The position among `layer_ids` of the active layer of `layers`, if there is a layer manager
/// and the layer is among them.
pub open spec fn active_position(layers: Option<LayerManagerQuery<'_>>, layer_ids: Seq<LayerId>) -> Option<int> {
    match layers {
        Some(q) => first_position(layer_ids, top_layer(q.inner.entries())),
        None => None,
    }
}

impl<A: ActionContainer> Action for PerLayer<A> {
    /// The action of the active layer is pressed and remembered; nothing happens when the active
    /// layer is not among the layers.
    open spec fn press_effect(&self, next: Self, before: ActionContext<'_>, after: ActionContext<'_>) -> bool {
        match active_position(before.layers, self.layer_ids()) {
            Some(i) => {
                &&& next.layer_ids() == self.layer_ids()
                &&& next.active_index() == Some(i as usize)
                &&& next.actions().num_children() == self.actions().num_children()
                &&& if i < self.actions().num_children() {
                    self.actions().child_press_effect(i, next.actions(), before, after)
                } else {
                    next.actions() == self.actions() && unchanged(before, after)
                }
            },
            None => stays(*self, next, before, after),
        }
    }

    /// The action that was pressed last is released.
    open spec fn release_effect(&self, next: Self, before: ActionContext<'_>, after: ActionContext<'_>) -> bool {
        match self.active_index() {
            Some(i) => {
                &&& next.layer_ids() == self.layer_ids()
                &&& next.active_index() == self.active_index()
                &&& if i < self.actions().num_children() {
                    self.actions().child_release_effect(i as int, next.actions(), before, after)
                } else {
                    next.actions() == self.actions() && unchanged(before, after)
                }
            },
            None => stays(*self, next, before, after),
        }
    }

    fn on_press(&mut self, ctx: &mut ActionContext<'_>)
        ensures
            old(self).wf() ==> final(self).wf(),
    {
        let active = match &ctx.layers {
            Some(q) => Some(q.active()),
            None => None,
        };
        if let Some(layer) = active {
            if let Some(index) = self.position_of(layer) {
                self.active_action_index = Some(index);
                if index < self.actions.len() {
                    let r = self.actions.child_on_press(index, ctx);
                    assert(r is Ok);
                }
            }
        }
    }

    fn on_release(&mut self, ctx: &mut ActionContext<'_>)
        ensures
            old(self).wf() ==> final(self).wf(),
    {
        if let Some(index) = self.active_action_index {
            if index < self.actions.len() {
                let r = self.actions.child_on_release(index, ctx);
                assert(r is Ok);
            }
        }
    }
}


/// A release of a per-layer action releases the action that its press pressed: the one at the
/// position of the layer that was active at the press, whatever layer is active at the release.
pub proof fn law_per_layer_releases_what_it_pressed<A: ActionContainer>(
    p0: PerLayer<A>,
    p1: PerLayer<A>,
    p2: PerLayer<A>,
    c0: ActionContext<'_>,
    c1: ActionContext<'_>,
    c2: ActionContext<'_>,
    c3: ActionContext<'_>,
    i: int,
)
    requires
        active_position(c0.layers, p0.layer_ids()) == Some(i),
        i < p0.actions().num_children(),
        i <= usize::MAX,
        p0.press_effect(p1, c0, c1),
        p1.release_effect(p2, c2, c3),
    ensures
        p0.actions().child_press_effect(i, p1.actions(), c0, c1),
        p1.actions().child_release_effect(i, p2.actions(), c2, c3),
{
    let ids = p0.layer_ids();
    let layer = top_layer(c0.layers->Some_0.inner.entries());
    lemma_first_position(ids, layer);
}

proof fn lemma_first_index(ids: Seq<LayerId>, layer: LayerId, k: int)
    requires
        0 <= k < ids.len(),
        ids[k] == layer,
    ensures
        exists|i: int|
            0 <= i < ids.len() && ids[i] == layer && forall|j: int| 0 <= j < i ==> ids[j] != layer,
    decreases k,
{
    if exists|j: int| 0 <= j < k && ids[j] == layer {
        let j = choose|j: int| 0 <= j < k && ids[j] == layer;
        lemma_first_index(ids, layer, j);
    } else {
        assert(0 <= k < ids.len() && ids[k] == layer && forall|j: int| 0 <= j < k ==> ids[j] != layer);
    }
}

proof fn lemma_first_position(ids: Seq<LayerId>, layer: LayerId)
    ensures
        first_position(ids, layer) matches Some(i) ==> 0 <= i < ids.len() && ids[i] == layer
            && forall|j: int| 0 <= j < i ==> ids[j] != layer,
{
    if exists|k: int| 0 <= k < ids.len() && ids[k] == layer {
        let k = choose|k: int| 0 <= k < ids.len() && ids[k] == layer;
        lemma_first_index(ids, layer, k);
    }
}

/// The time between the press and the release of a tap, in milliseconds.
pub const TAP_RELEASE_DELAY_MS: u64 = 10;

/// Runs one action when the key is held beyond the tapping term and another when it is tapped.
///
/// After a press the runner waits for the tapping term and then calls
/// [`HoldTap::on_tapping_term_elapsed`]; after a tap it waits [`TAP_RELEASE_DELAY_MS`] and calls
/// [`HoldTap::on_tap_delay_elapsed`].
pub struct HoldTap<Hold, Tap> {
    hold_action: Hold,
    tap_action: Tap,
    tapping_term_ms: u64,
    activated_hold: bool,
    waiting: bool,
    tap_release_pending: bool,
}

impl<Hold: Action, Tap: Action> HoldTap<Hold, Tap> {
    /// The action of a hold.
    pub closed spec fn hold(&self) -> Hold {
        self.hold_action
    }

    /// The action of a tap.
    pub closed spec fn tap(&self) -> Tap {
        self.tap_action
    }

    /// How long a key must be held, in milliseconds, for the hold action.
    pub closed spec fn tapping_term_ms(&self) -> u64 {
        self.tapping_term_ms
    }

    /// Whether a press waits for the tapping term to end.
    pub closed spec fn waiting(&self) -> bool {
        self.waiting
    }

    /// Whether the hold action was pressed for the current press.
    pub closed spec fn activated_hold(&self) -> bool {
        self.activated_hold
    }

    /// Whether the tap action was pressed and waits to be released.
    pub closed spec fn tap_release_pending(&self) -> bool {
        self.tap_release_pending
    }

    /// An action with a tapping term of 200 ms.
    pub fn new(hold_action: Hold, tap_action: Tap) -> (r: Self)
        ensures
            r.hold() == hold_action,
            r.tap() == tap_action,
            r.tapping_term_ms() == 200,
            !r.waiting(),
            !r.activated_hold(),
            !r.tap_release_pending(),
    {
        HoldTap {
            hold_action,
            tap_action,
            tapping_term_ms: 200,
            activated_hold: false,
            waiting: false,
            tap_release_pending: false,
        }
    }

    /// Sets how long a key must be pressed, in milliseconds, to trigger the hold action.
    pub fn tapping_term(self, value_ms: u64) -> (r: Self)
        ensures
            r.hold() == self.hold(),
            r.tap() == self.tap(),
            r.tapping_term_ms() == value_ms,
            r.waiting() == self.waiting(),
            r.activated_hold() == self.activated_hold(),
            r.tap_release_pending() == self.tap_release_pending(),
    {
        let mut this = self;
        this.tapping_term_ms = value_ms;
        this
    }

    /// The tapping term has ended: if the key is still held, the hold action is pressed.
    pub fn on_tapping_term_elapsed(&mut self, ctx: &mut ActionContext<'_>)
        requires
            layers_wf(old(ctx).layers),
        ensures
            layers_wf(final(ctx).layers),
            !final(self).waiting(),
            final(self).activated_hold() == (old(self).waiting() || old(self).activated_hold()),
            final(self).tap_release_pending() == old(self).tap_release_pending(),
            final(self).tapping_term_ms() == old(self).tapping_term_ms(),
            final(self).tap() == old(self).tap(),
            if old(self).waiting() {
                old(self).hold().press_effect(final(self).hold(), *old(ctx), *final(ctx))
            } else {
                final(self).hold() == old(self).hold() && unchanged(*old(ctx), *final(ctx))
            },
    {
        if self.waiting {
            self.waiting = false;
            self.activated_hold = true;
            self.hold_action.on_press(ctx);
        }
    }

    /// The delay after a tap has ended: the tap action is released.
    pub fn on_tap_delay_elapsed(&mut self, ctx: &mut ActionContext<'_>)
        requires
            layers_wf(old(ctx).layers),
        ensures
            layers_wf(final(ctx).layers),
            !final(self).tap_release_pending(),
            final(self).waiting() == old(self).waiting(),
            final(self).activated_hold() == old(self).activated_hold(),
            final(self).tapping_term_ms() == old(self).tapping_term_ms(),
            final(self).hold() == old(self).hold(),
            if old(self).tap_release_pending() {
                old(self).tap().release_effect(final(self).tap(), *old(ctx), *final(ctx))
            } else {
                final(self).tap() == old(self).tap() && unchanged(*old(ctx), *final(ctx))
            },
    {
        if self.tap_release_pending {
            self.tap_release_pending = false;
            self.tap_action.on_release(ctx);
        }
    }
}

impl<Hold: Action, Tap: Action> Action for HoldTap<Hold, Tap> {
    /// A press starts the wait for the tapping term and changes nothing else.
    open spec fn press_effect(&self, next: Self, before: ActionContext<'_>, after: ActionContext<'_>) -> bool {
        &&& next.hold() == self.hold()
        &&& next.tap() == self.tap()
        &&& next.waiting()
        &&& !next.activated_hold()
        &&& next.tap_release_pending() == self.tap_release_pending()
        &&& next.tapping_term_ms() == self.tapping_term_ms()
        &&& unchanged(before, after)
    }

    /// A release ends the wait; it releases the hold action if that was pressed, and otherwise
    /// presses the tap action, whose release is then pending.
    open spec fn release_effect(&self, next: Self, before: ActionContext<'_>, after: ActionContext<'_>) -> bool {
        &&& !next.waiting()
        &&& next.activated_hold() == self.activated_hold()
        &&& next.tapping_term_ms() == self.tapping_term_ms()
        &&& if self.activated_hold() {
            &&& next.tap() == self.tap()
            &&& next.tap_release_pending() == self.tap_release_pending()
            &&& self.hold().release_effect(next.hold(), before, after)
        } else {
            &&& next.hold() == self.hold()
            &&& next.tap_release_pending()
            &&& self.tap().press_effect(next.tap(), before, after)
        }
    }

    fn on_press(&mut self, ctx: &mut ActionContext<'_>) {
        self.activated_hold = false;
        self.waiting = true;
    }

    fn on_release(&mut self, ctx: &mut ActionContext<'_>) {
        if self.activated_hold {
            self.waiting = false;
            self.hold_action.on_release(ctx);
        } else {
            self.waiting = false;
            self.tap_action.on_press(ctx);
            self.tap_release_pending = true;
        }
    }
}

/// A key that is released before the tapping term ends is a tap: the press changes nothing
/// outside the action, and the release presses the tap action, leaves the hold action alone and
/// leaves the tap's release pending.
pub proof fn law_quick_release_taps<Hold: Action, Tap: Action>(
    h0: HoldTap<Hold, Tap>,
    h1: HoldTap<Hold, Tap>,
    h2: HoldTap<Hold, Tap>,
    c0: ActionContext<'_>,
    c1: ActionContext<'_>,
    c2: ActionContext<'_>,
)
    requires
        h0.press_effect(h1, c0, c1),
        h1.release_effect(h2, c1, c2),
    ensures
        unchanged(c0, c1),
        !h2.waiting(),
        !h2.activated_hold(),
        h2.tap_release_pending(),
        h2.hold() == h0.hold(),
        h0.tap().press_effect(h2.tap(), c1, c2),
{
}

/// Keeps an action pressed after its key is released, until the next key is pressed or the
/// timeout ends.
///
/// After a press the runner hands the action every message to the host through
/// [`Sticky::on_external_message`] and calls [`Sticky::on_timeout`] when the timeout ends.
pub struct Sticky<A> {
    action: A,
    timeout_ms: u64,
    lazy: bool,
    ignore_modifiers: bool,
    is_held: bool,
    was_released: bool,
    waiting: bool,
}

/// Whether `action` went to `next`, and the context from `before` to `after`, by a press if
/// `press`, followed by a release if `release`.
pub open spec fn press_then_release<A: Action>(
    action: A,
    next: A,
    before: ActionContext<'_>,
    after: ActionContext<'_>,
    press: bool,
    release: bool,
) -> bool {
    if press && release {
        exists|mid: A, m: ActionContext<'_>|
            action.press_effect(mid, before, m) && #[trigger] mid.release_effect(next, m, after)
    } else if press {
        action.press_effect(next, before, after)
    } else if release {
        action.release_effect(next, before, after)
    } else {
        stays(action, next, before, after)
    }
}

impl<A: Action> Sticky<A> {
    /// The action that is kept pressed.
    pub closed spec fn action(&self) -> A {
        self.action
    }

    /// How long the action stays pressed at most, in milliseconds.
    pub closed spec fn timeout_ms(&self) -> u64 {
        self.timeout_ms
    }

    /// Whether the action is only pressed together with the next key.
    pub closed spec fn is_lazy(&self) -> bool {
        self.lazy
    }

    /// Whether presses of modifier keys are not counted as the next key.
    pub closed spec fn ignores_modifiers(&self) -> bool {
        self.ignore_modifiers
    }

    /// Whether the key is held.
    pub closed spec fn is_held(&self) -> bool {
        self.is_held
    }

    /// Whether the action was released when the wait ended.
    pub closed spec fn was_released(&self) -> bool {
        self.was_released
    }

    /// Whether a press waits for the next key or the timeout.
    pub closed spec fn waiting(&self) -> bool {
        self.waiting
    }

    /// Whether `next` has the settings of `self`.
    pub open spec fn same_settings(&self, next: Self) -> bool {
        &&& next.timeout_ms() == self.timeout_ms()
        &&& next.is_lazy() == self.is_lazy()
        &&& next.ignores_modifiers() == self.ignores_modifiers()
    }

    /// A sticky action with a timeout of one second, not lazy, that ignores modifiers.
    pub fn new(action: A) -> (r: Self)
        ensures
            r.action() == action,
            r.timeout_ms() == 1000,
            !r.is_lazy(),
            r.ignores_modifiers(),
            !r.is_held(),
            !r.was_released(),
            !r.waiting(),
    {
        Sticky {
            action,
            timeout_ms: 1000,
            lazy: false,
            ignore_modifiers: true,
            is_held: false,
            was_released: false,
            waiting: false,
        }
    }

    /// Sets the timeout, in milliseconds.
    pub fn timeout(self, value_ms: u64) -> (r: Self)
        ensures
            r.action() == self.action(),
            r.timeout_ms() == value_ms,
            r.is_lazy() == self.is_lazy(),
            r.ignores_modifiers() == self.ignores_modifiers(),
            r.is_held() == self.is_held(),
            r.was_released() == self.was_released(),
            r.waiting() == self.waiting(),
    {
        let mut this = self;
        this.timeout_ms = value_ms;
        this
    }

    /// Sets whether the action is only pressed together with the next key.
    pub fn lazy(self, value: bool) -> (r: Self)
        ensures
            r.action() == self.action(),
            r.timeout_ms() == self.timeout_ms(),
            r.is_lazy() == value,
            r.ignores_modifiers() == self.ignores_modifiers(),
            r.is_held() == self.is_held(),
            r.was_released() == self.was_released(),
            r.waiting() == self.waiting(),
    {
        let mut this = self;
        this.lazy = value;
        this
    }

    /// Sets whether presses of modifier keys are not counted as the next key.
    pub fn ignore_modifiers(self, value: bool) -> (r: Self)
        ensures
            r.action() == self.action(),
            r.timeout_ms() == self.timeout_ms(),
            r.is_lazy() == self.is_lazy(),
            r.ignores_modifiers() == value,
            r.is_held() == self.is_held(),
            r.was_released() == self.was_released(),
            r.waiting() == self.waiting(),
    {
        let mut this = self;
        this.ignore_modifiers = value;
        this
    }

    /// Ends the wait: a lazy action is pressed, and the action is released if the key is no
    /// longer held.
    fn finish(&mut self, ctx: &mut ActionContext<'_>)
        requires
            layers_wf(old(ctx).layers),
        ensures
            layers_wf(final(ctx).layers),
            !final(self).waiting(),
            final(self).is_held() == old(self).is_held(),
            final(self).was_released() == (old(self).was_released() || !old(self).is_held()),
            old(self).same_settings(*final(self)),
            press_then_release(
                old(self).action(),
                final(self).action(),
                *old(ctx),
                *final(ctx),
                old(self).is_lazy(),
                !old(self).is_held(),
            ),
    {
        self.waiting = false;
        if self.lazy {
            self.action.on_press(ctx);
        }
        let ghost mid = self.action;
        let ghost m = *ctx;
        if !self.is_held {
            self.was_released = true;
            self.action.on_release(ctx);
            if self.lazy {
                assert(mid.release_effect(self.action, m, *ctx));
            }
        }
    }

    /// A message to the host while the action waits: a press of a key (other than a modifier
    /// when modifiers are ignored) ends the wait.
    pub fn on_external_message(&mut self, message: ExternalMessage, ctx: &mut ActionContext<'_>)
        requires
            layers_wf(old(ctx).layers),
        ensures
            layers_wf(final(ctx).layers),
            final(self).is_held() == old(self).is_held(),
            old(self).same_settings(*final(self)),
            ({
                let ends = old(self).waiting() && match message {
                    ExternalMessage::KeyPress(key) => !(old(self).ignores_modifiers()
                        && crate::keyboard::is_modifier_usage(key.0)),
                    ExternalMessage::KeyRelease(_) => false,
                };
                &&& final(self).waiting() == (old(self).waiting() && !ends)
                &&& final(self).was_released() == (old(self).was_released() || (ends
                    && !old(self).is_held()))
                &&& if ends {
                    press_then_release(
                        old(self).action(),
                        final(self).action(),
                        *old(ctx),
                        *final(ctx),
                        old(self).is_lazy(),
                        !old(self).is_held(),
                    )
                } else {
                    final(self).action() == old(self).action() && unchanged(*old(ctx), *final(ctx))
                }
            }),
    {
        if self.waiting {
            if let ExternalMessage::KeyPress(key) = message {
                if !(self.ignore_modifiers && key.is_modifier()) {
                    self.finish(ctx);
                }
            }
        }
    }

    /// The timeout has ended: a lazy action is pressed now, and the wait ends.
    pub fn on_timeout(&mut self, ctx: &mut ActionContext<'_>)
        requires
            layers_wf(old(ctx).layers),
        ensures
            layers_wf(final(ctx).layers),
            !final(self).waiting(),
            final(self).is_held() == old(self).is_held(),
            final(self).was_released() == (old(self).was_released() || (old(self).waiting()
                && !old(self).is_held())),
            old(self).same_settings(*final(self)),
            if old(self).waiting() {
                press_then_release(
                    old(self).action(),
                    final(self).action(),
                    *old(ctx),
                    *final(ctx),
                    old(self).is_lazy(),
                    !old(self).is_held(),
                )
            } else {
                final(self).action() == old(self).action() && unchanged(*old(ctx), *final(ctx))
            },
    {
        if self.waiting {
            self.finish(ctx);
        }
    }
}

impl<A: Action> Action for Sticky<A> {
    /// A press holds the key, starts the wait and presses the action unless it is lazy.
    open spec fn press_effect(&self, next: Self, before: ActionContext<'_>, after: ActionContext<'_>) -> bool {
        &&& next.is_held()
        &&& next.waiting()
        &&& next.was_released() == self.was_released()
        &&& self.same_settings(next)
        &&& if self.is_lazy() {
            next.action() == self.action() && unchanged(before, after)
        } else {
            self.action().press_effect(next.action(), before, after)
        }
    }

    /// A release lets the key go and releases the action unless that was done when the wait
    /// ended.
    open spec fn release_effect(&self, next: Self, before: ActionContext<'_>, after: ActionContext<'_>) -> bool {
        &&& !next.is_held()
        &&& next.waiting() == self.waiting()
        &&& next.was_released() == self.was_released()
        &&& self.same_settings(next)
        &&& if self.was_released() {
            next.action() == self.action() && unchanged(before, after)
        } else {
            self.action().release_effect(next.action(), before, after)
        }
    }

    fn on_press(&mut self, ctx: &mut ActionContext<'_>) {
        self.is_held = true;
        if !self.lazy {
            self.action.on_press(ctx);
        }
        self.waiting = true;
    }

    fn on_release(&mut self, ctx: &mut ActionContext<'_>) {
        self.is_held = false;
        if !self.was_released {
            self.action.on_release(ctx);
        }
    }
}


/// The layout of the keys: one action for each key index.
pub struct Layout<A: ActionContainer> {
    actions: A,
}

impl<A: ActionContainer> Layout<A> {
    /// The actions, by key index.
    pub closed spec fn actions(&self) -> A {
        self.actions
    }

    /// A layout with the given actions.
    pub fn new(actions: A) -> (r: Self)
        ensures
            r.actions() == actions,
    {
        Layout { actions }
    }

    /// Presses or releases the action of the key in `message`; an error if the layout has no
    /// action at that key index.
    pub fn handle_message(&mut self, message: KeyMessage, ctx: &mut ActionContext<'_>) -> (r:
        Result<(), InvalidChildActionIndex>)
        requires
            layers_wf(old(ctx).layers),
        ensures
            layers_wf(final(ctx).layers),
            final(self).actions().num_children() == old(self).actions().num_children(),
            match message {
                KeyMessage::Press { key_index } => {
                    &&& r is Ok <==> key_index < old(self).actions().num_children()
                    &&& match r {
                        Ok(()) => old(self).actions().child_press_effect(
                            key_index as int,
                            final(self).actions(),
                            *old(ctx),
                            *final(ctx),
                        ),
                        Err(e) => e.index == key_index && stays(
                            *old(self),
                            *final(self),
                            *old(ctx),
                            *final(ctx),
                        ),
                    }
                },
                KeyMessage::Release { key_index } => {
                    &&& r is Ok <==> key_index < old(self).actions().num_children()
                    &&& match r {
                        Ok(()) => old(self).actions().child_release_effect(
                            key_index as int,
                            final(self).actions(),
                            *old(ctx),
                            *final(ctx),
                        ),
                        Err(e) => e.index == key_index && stays(
                            *old(self),
                            *final(self),
                            *old(ctx),
                            *final(ctx),
                        ),
                    }
                },
            },
    {
        match message {
            KeyMessage::Press { key_index } => self.actions.child_on_press(key_index as usize, ctx),
            KeyMessage::Release { key_index } => self.actions.child_on_release(
                key_index as usize,
                ctx,
            ),
        }
    }
}

} // verus!
