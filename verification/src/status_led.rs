//! Status LED arrays: the actions that light them, the stack of running actions, the brightness
//! levels that each action gives each LED, and the hooks that turn transport events into actions.
use crate::ble::Event;
use crate::device::Address;
use vstd::prelude::*;

verus! {

/// Identifies an action: the device that issued it and a counter of that device.
#[derive(Debug, Clone, Copy)]
pub struct ActionId {
    pub address: Address,
    pub counter: u32,
}

/// Whether two action identifiers name the same action.
pub open spec fn same_action(a: ActionId, b: ActionId) -> bool {
    a.address.0@ == b.address.0@ && a.counter == b.counter
}

/// Hands out the counters of the action identifiers of one device, one after the other.
pub struct ActionCounter {
    next: u32,
}

impl ActionCounter {
    /// The counter that the next identifier gets.
    pub closed spec fn next(&self) -> u32 {
        self.next
    }

    /// A counter whose first identifier gets 0.
    pub fn new() -> (r: Self)
        ensures
            r.next() == 0,
    {
        ActionCounter { next: 0 }
    }
}

impl ActionId {
    /// A new identifier for an action of `device_address`, with the counter's next value; the
    /// counter moves on by one, wrapping around after `u32::MAX`.
    pub fn new(device_address: Address, counter: &mut ActionCounter) -> (r: Self)
        ensures
            r.address == device_address,
            r.counter == old(counter).next(),
            final(counter).next() == (if old(counter).next() == u32::MAX {
                0
            } else {
                (old(counter).next() + 1) as u32
            }),
    {
        let value = counter.next;
        counter.next = value.wrapping_add(1);
        ActionId { address: device_address, counter: value }
    }

    /// Whether `self` and `other` name the same action.
    pub fn same_as(&self, other: &ActionId) -> (r: bool)
        ensures
            r == same_action(*self, *other),
    {
        self.counter == other.counter && self.address.same_as(&other.address)
    }
}

/// Two identifiers that one counter hands out one after the other differ.
pub proof fn law_consecutive_ids_differ(first: ActionId, second: ActionId, next: u32)
    requires
        first.counter == next,
        second.counter == (if next == u32::MAX {
            0
        } else {
            (next + 1) as u32
        }),
    ensures
        !same_action(first, second),
{
}

/// What an LED array shows.
#[derive(Debug, Clone)]
pub enum Action {
    /// Lights the LEDs at `indices`, for `timeout_ms` milliseconds or until it is stopped.
    Individual { indices: Vec<usize>, timeout_ms: Option<u16> },
    /// Shows `value` out of `u16::MAX` as a bar over the LEDs.
    Progress { value: u16, timeout_ms: Option<u16> },
    /// Lets light run over the LEDs from the first to the last, `count` times or until stopped.
    SlideForwards { duration_ms: u16, count: Option<u16> },
    /// Lets light run over the LEDs from the last to the first, `count` times or until stopped.
    SlideBackwards { duration_ms: u16, count: Option<u16> },
    /// Stops the action with the identifier `action_id`.
    Stop { action_id: ActionId },
}

/// A request to an LED array, possibly only for some devices.
pub struct Message {
    pub action_id: ActionId,
    pub action: Action,
    pub filter_devices: Option<Vec<Address>>,
}

/// Whether `address` is one of `addresses`.
pub open spec fn contains_address(addresses: Seq<Address>, address: Address) -> bool {
    exists|i: int| 0 <= i < addresses.len() && #[trigger] addresses[i].0@ == address.0@
}

impl Message {
    /// A message for every device.
    pub fn new(action_id: ActionId, action: Action) -> (r: Self)
        ensures
            r.action_id == action_id,
            r.action == action,
            r.filter_devices.is_none(),
    {
        Message { action_id, action, filter_devices: None }
    }

    /// The same message, only for the devices with the given addresses.
    pub fn filter_devices(self, addresses: Vec<Address>) -> (r: Self)
        ensures
            r.action_id == self.action_id,
            r.action == self.action,
            r.filter_devices == Some(addresses),
    {
        let mut this = self;
        this.filter_devices = Some(addresses);
        this
    }

    /// Whether the device with the address `address` shows this message.
    pub fn is_for_device(&self, address: &Address) -> (r: bool)
        ensures
            r == match self.filter_devices {
                None => true,
                Some(addresses) => contains_address(addresses@, *address),
            },
    {
        match &self.filter_devices {
            None => true,
            Some(addresses) => {
                let mut i: usize = 0;
                while i < addresses.len()
                    invariant
                        i <= addresses.len(),
                        self.filter_devices == Some(*addresses),
                        forall|j: int| 0 <= j < i ==> addresses@[j].0@ != address.0@,
                    decreases addresses.len() - i,
                {
                    if addresses[i].same_as(address) {
                        assert(addresses@[i as int].0@ == address.0@);
                        return true;
                    }
                    i += 1;
                }
                false
            },
        }
    }
}


/// The actions that an LED array has been asked to show, the latest on top, each with the time at
/// which it started once it has.
pub struct ActionStack {
    entries: Vec<(ActionId, Action, Option<u64>)>,
}

/// Whether the entry at `i` of `entries` has the identifier `id` and no later entry has.
pub open spec fn is_last_match(entries: Seq<(ActionId, Action, Option<u64>)>, id: ActionId, i: int) -> bool {
    &&& 0 <= i < entries.len()
    &&& same_action(entries[i].0, id)
    &&& forall|j: int| i < j < entries.len() ==> !same_action(#[trigger] entries[j].0, id)
}

/// The entries that remain when the action `id` is stopped: the last entry with that identifier
/// goes, and then the top entry, which is the request to stop.
pub open spec fn after_stop(entries: Seq<(ActionId, Action, Option<u64>)>, id: ActionId) -> Seq<(ActionId, Action, Option<u64>)> {
    let removed = if exists|i: int| is_last_match(entries, id, i) {
        entries.remove(choose|i: int| is_last_match(entries, id, i))
    } else {
        entries
    };
    if removed.len() > 0 {
        removed.drop_last()
    } else {
        removed
    }
}

impl ActionStack {
    /// The entries, the latest last.
    pub closed spec fn entries(&self) -> Seq<(ActionId, Action, Option<u64>)> {
        self.entries@
    }

    /// A stack without actions.
    pub fn new() -> (r: Self)
        ensures
            r.entries() == Seq::<(ActionId, Action, Option<u64>)>::empty(),
    {
        ActionStack { entries: Vec::new() }
    }

    /// Puts a newly requested action on top; it has not started yet.
    pub fn push(&mut self, action_id: ActionId, action: Action)
        ensures
            final(self).entries() == old(self).entries().push((action_id, action, None)),
    {
        self.entries.push((action_id, action, None));
    }

    /// Takes a request for the LED array of the device with the address `address`: its action
    /// goes on top unless the request is only for other devices. Returns whether it was taken.
    pub fn receive(&mut self, message: Message, address: &Address) -> (taken: bool)
        ensures
            taken == match message.filter_devices {
                None => true,
                Some(addresses) => contains_address(addresses@, *address),
            },
            taken ==> final(self).entries() == old(self).entries().push(
                (message.action_id, message.action, None),
            ),
            !taken ==> final(self).entries() == old(self).entries(),
    {
        if message.is_for_device(address) {
            self.push(message.action_id, message.action);
            true
        } else {
            false
        }
    }

    /// The action on top, if there is one.
    pub fn top(&self) -> (r: Option<&Action>)
        ensures
            self.entries().len() == 0 ==> r.is_none(),
            self.entries().len() > 0 ==> r == Some(&self.entries().last().1),
    {
        if self.entries.len() == 0 {
            None
        } else {
            Some(&self.entries[self.entries.len() - 1].1)
        }
    }

    /// Starts the action on top at `now` unless it has already started, and returns the time at
    /// which it started.
    pub fn start_top(&mut self, now: u64) -> (r: Option<u64>)
        ensures
            old(self).entries().len() == 0 ==> r.is_none() && final(self).entries() == old(self).entries(),
            old(self).entries().len() > 0 ==> {
                let top = old(self).entries().last();
                let started = match top.2 {
                    Some(t) => t,
                    None => now,
                };
                &&& r == Some(started)
                &&& final(self).entries() == old(self).entries().drop_last().push(
                    (top.0, top.1, Some(started)),
                )
            },
    {
        match self.entries.pop() {
            None => None,
            Some(entry) => {
                let (action_id, action, started) = entry;
                let started = match started {
                    Some(t) => t,
                    None => now,
                };
                self.entries.push((action_id, action, Some(started)));
                Some(started)
            },
        }
    }

    /// Removes the action on top, once it has run its course.
    pub fn finish_top(&mut self)
        ensures
            final(self).entries() == (if old(self).entries().len() > 0 {
                old(self).entries().drop_last()
            } else {
                old(self).entries()
            }),
    {
        let _ = self.entries.pop();
    }

    /// The position of the latest entry with the identifier `action_id`.
    fn last_match_index(&self, action_id: &ActionId) -> (r: Option<usize>)
        ensures
            match r {
                Some(k) => is_last_match(self.entries(), *action_id, k as int),
                None => forall|j: int|
                    0 <= j < self.entries().len() ==> !same_action(#[trigger] self.entries()[j].0, *action_id),
            },
    {
        let mut i: usize = self.entries.len();
        while i > 0
            invariant
                i <= self.entries@.len(),
                forall|j: int|
                    i <= j < self.entries@.len() ==> !same_action(#[trigger] self.entries@[j].0, *action_id),
            decreases i,
        {
            if self.entries[i - 1].0.same_as(action_id) {
                return Some(i - 1);
            }
            i -= 1;
        }
        None
    }

    /// Carries out the request on top to stop the action `action_id`: removes the latest entry
    /// with that identifier, if there is one, and then the request itself. Returns whether an
    /// entry with that identifier was found.
    pub fn stop(&mut self, action_id: &ActionId) -> (found: bool)
        ensures
            found == exists|i: int| is_last_match(old(self).entries(), *action_id, i),
            final(self).entries() == after_stop(old(self).entries(), *action_id),
    {
        let ghost entries = self.entries@;
        let found = self.last_match_index(action_id);
        proof {
            if let Some(k) = found {
                let c = choose|c: int| is_last_match(entries, *action_id, c);
                assert(c == k as int) by {
                    if c < k {
                        assert(!same_action(entries[k as int].0, *action_id));
                    } else if c > k {
                        assert(!same_action(entries[c].0, *action_id));
                    }
                }
            } else {
                assert(!exists|c: int| is_last_match(entries, *action_id, c)) by {
                    if exists|c: int| is_last_match(entries, *action_id, c) {
                        let c = choose|c: int| is_last_match(entries, *action_id, c);
                        assert(!same_action(self.entries()[c].0, *action_id));
                    }
                }
            }
        }
        match found {
            Some(k) => {
                let _ = self.entries.remove(k);
            },
            None => {},
        }
        let _ = self.entries.pop();
        found.is_some()
    }
}


/// A request to stop an action that was put on the stack just before it removes both, and the
/// stack is as it was before.
pub proof fn law_stop_undoes_push(
    entries: Seq<(ActionId, Action, Option<u64>)>,
    id: ActionId,
    action: Action,
    stop_id: ActionId,
)
    requires
        !same_action(stop_id, id),
    ensures
        after_stop(
            entries.push((id, action, None)).push((stop_id, Action::Stop { action_id: id }, None)),
            id,
        ) == entries,
{
    let pushed = entries.push((id, action, None));
    let full = pushed.push((stop_id, Action::Stop { action_id: id }, None));
    let k = entries.len() as int;
    assert(is_last_match(full, id, k));
    let c = choose|c: int| is_last_match(full, id, c);
    assert(c == k) by {
        if c < k {
            assert(!same_action(full[k].0, id));
        }
    }
    assert(full.remove(k) =~= entries.push((stop_id, Action::Stop { action_id: id }, None)));
    assert(full.remove(k).drop_last() =~= entries);
}

/// Which LEDs an [`Action::Individual`] lights: each whose position is one of `indices`.
pub fn individual_leds(indices: &Vec<usize>, num_leds: usize) -> (r: Vec<bool>)
    ensures
        r@.len() == num_leds,
        forall|i: int| 0 <= i < num_leds ==> #[trigger] r@[i] == indices@.contains(i as usize),
{
    let mut lit: Vec<bool> = Vec::new();
    let mut i: usize = 0;
    while i < num_leds
        invariant
            i <= num_leds,
            lit@.len() == i,
            forall|k: int| 0 <= k < i ==> #[trigger] lit@[k] == indices@.contains(k as usize),
        decreases num_leds - i,
    {
        let mut found = false;
        let mut j: usize = 0;
        while j < indices.len()
            invariant
                j <= indices@.len(),
                found == exists|m: int| 0 <= m < j && indices@[m] == i,
            decreases indices.len() - j,
        {
            if indices[j] == i {
                found = true;
            }
            j += 1;
        }
        lit.push(found);
        i += 1;
    }
    lit
}

/// How much of [`Action::Progress`] one LED shows: none before its share of the range begins,
/// all of it once its share is passed, and in between the part of its share that `value` covers;
/// each LED's share is `step` long.
pub open spec fn progress_level_spec(value: int, step: int, index: int) -> int {
    if value >= step * (index + 1) {
        step
    } else if value < step * index {
        0
    } else {
        value - step * index
    }
}

/// The brightness of the LED at `index` of `num_leds` for [`Action::Progress`] with `value`, as a
/// fraction: numerator and denominator. The denominator is each LED's share of `u16::MAX`.
pub fn progress_level(value: u16, num_leds: usize, index: usize) -> (r: (u16, u16))
    requires
        0 < num_leds <= u16::MAX,
        index < num_leds,
    ensures
        r.1 == u16::MAX / (num_leds as u16),
        r.1 > 0,
        r.0 == progress_level_spec(value as int, r.1 as int, index as int),
{
    let step: u16 = u16::MAX / (num_leds as u16);
    proof {
        let n = num_leds as int;
        let st = step as int;
        assert(st * n <= 65535int) by (nonlinear_arith)
            requires
                st == 65535int / n,
                n > 0,
        ;
        assert(st >= 1) by (nonlinear_arith)
            requires
                st == 65535int / n,
                0 < n <= 65535,
        ;
        assert(st * (index as int + 1) <= st * n) by (nonlinear_arith)
            requires
                index < n,
                st >= 0,
        ;
        assert(st * (index as int) <= st * (index as int + 1)) by (nonlinear_arith)
            requires
                st >= 0,
        ;
    }
    let i = index as u16;
    let level = if value >= step * (i + 1) {
        step
    } else if value < step * i {
        0
    } else {
        value - step * i
    };
    (level, step)
}

/// The brightness of every LED of `num_leds` for [`Action::Progress`] with `value`, each as
/// numerator and denominator.
pub fn progress_levels(value: u16, num_leds: usize) -> (r: Vec<(u16, u16)>)
    requires
        0 < num_leds <= u16::MAX,
    ensures
        r@.len() == num_leds,
        forall|i: int|
            0 <= i < num_leds ==> #[trigger] r@[i].1 == u16::MAX / (num_leds as u16) && r@[i].0
                == progress_level_spec(value as int, r@[i].1 as int, i),
{
    let mut levels: Vec<(u16, u16)> = Vec::new();
    let mut i: usize = 0;
    while i < num_leds
        invariant
            i <= num_leds <= u16::MAX,
            levels@.len() == i,
            forall|j: int|
                0 <= j < i ==> #[trigger] levels@[j].1 == u16::MAX / (num_leds as u16)
                    && levels@[j].0 == progress_level_spec(value as int, levels@[j].1 as int, j),
        decreases num_leds - i,
    {
        levels.push(progress_level(value, num_leds, i));
        i += 1;
    }
    levels
}

/// LEDs fill in order: an LED that shows any of the progress comes after only full LEDs, and a
/// later LED never shows more than an earlier one.
pub proof fn law_progress_fills_in_order(value: int, step: int, i: int, j: int)
    requires
        step > 0,
        0 <= i < j,
    ensures
        progress_level_spec(value, step, j) <= progress_level_spec(value, step, i),
        progress_level_spec(value, step, j) > 0 ==> progress_level_spec(value, step, i) == step,
{
    assert(step * (i + 1) <= step * j) by (nonlinear_arith)
        requires
            step > 0,
            i + 1 <= j,
    ;
    assert(step * (i + 1) == step * i + step) by (nonlinear_arith);
    assert(step * (j + 1) == step * j + step) by (nonlinear_arith);
}

/// The number of steps of a slide that each LED takes to light up fully.
pub const SLIDE_RANGE: usize = 200;

/// The level, out of [`SLIDE_RANGE`], of the LED at slide position `position` at step `update`
/// of a slide: it rises over the steps before `position * SLIDE_RANGE + SLIDE_RANGE` and falls
/// over the steps after it.
pub open spec fn slide_level_spec(update: int, position: int) -> int {
    let distance = update - (position * 200 + 200);
    let away = if distance < 0 {
        -distance
    } else {
        distance
    };
    if away >= 200 {
        0
    } else {
        200 - away
    }
}

/// The level, out of [`SLIDE_RANGE`], of the LED at slide position `position` at step `update`.
pub fn slide_level(update: usize, position: usize) -> (r: u16)
    requires
        update <= isize::MAX,
        position * 200 + 200 <= isize::MAX,
    ensures
        r == slide_level_spec(update as int, position as int),
        r <= 200,
{
    let peak: isize = (position * SLIDE_RANGE + SLIDE_RANGE) as isize;
    let distance: isize = update as isize - peak;
    let away: isize = if distance < 0 {
        -distance
    } else {
        distance
    };
    if away >= 200 {
        0
    } else {
        (200 - away) as u16
    }
}

/// The number of steps of one slide over `num_leds` LEDs.
pub fn slide_step_count(num_leds: usize) -> (r: usize)
    requires
        (num_leds + 1) * 200 <= usize::MAX,
    ensures
        r == (num_leds + 1) * 200,
{
    SLIDE_RANGE * (num_leds + 1)
}

/// The levels of all `num_leds` LEDs at step `update` of a slide; a backwards slide starts at the
/// last LED.
pub fn slide_levels(update: usize, num_leds: usize, reverse: bool) -> (r: Vec<u16>)
    requires
        update <= isize::MAX,
        num_leds * 200 + 200 <= isize::MAX,
    ensures
        r@.len() == num_leds,
        forall|c: int|
            0 <= c < num_leds ==> #[trigger] r@[c] == slide_level_spec(
                update as int,
                if reverse {
                    num_leds - 1 - c
                } else {
                    c
                },
            ),
{
    let mut levels: Vec<u16> = Vec::new();
    let mut c: usize = 0;
    while c < num_leds
        invariant
            c <= num_leds,
            update <= isize::MAX,
            num_leds * 200 + 200 <= isize::MAX,
            levels@.len() == c,
            forall|k: int|
                0 <= k < c ==> #[trigger] levels@[k] == slide_level_spec(
                    update as int,
                    if reverse {
                        num_leds - 1 - k
                    } else {
                        k
                    },
                ),
        decreases num_leds - c,
    {
        let position = if reverse {
            num_leds - 1 - c
        } else {
            c
        };
        levels.push(slide_level(update, position));
        c += 1;
    }
    levels
}

/// At every step of a slide at most two LEDs are lit, and they are neighbours.
pub proof fn law_slide_lights_neighbours(update: int, a: int, b: int)
    requires
        0 <= a < b,
        slide_level_spec(update, a) > 0,
        slide_level_spec(update, b) > 0,
    ensures
        b == a + 1,
{
}

/// Where a slide of `duration_ms` that started `elapsed_ms` ago stands: the offset into the
/// current run in milliseconds (reckoned on the elapsed time taken modulo 2^16), and, for a slide
/// with a count, how many runs are left (counting the current one).
pub fn slide_progress(elapsed_ms: u64, duration_ms: u16, count: Option<u16>) -> (r: (u16, Option<u16>))
    requires
        duration_ms > 0,
    ensures
        r.0 == (elapsed_ms as u16) % duration_ms,
        r.1 == match count {
            None => None,
            Some(c) => {
                let done = (elapsed_ms / (duration_ms as u64)) as u16;
                Some(
                    if c >= done {
                        (c - done) as u16
                    } else {
                        0u16
                    },
                )
            },
        },
{
    let offset = (elapsed_ms as u16) % duration_ms;
    let remaining = match count {
        None => None,
        Some(c) => {
            let done = (elapsed_ms / (duration_ms as u64)) as u16;
            Some(c.saturating_sub(done))
        },
    };
    (offset, remaining)
}

/// The time that is left of a timeout `timeout` after `elapsed`, none once it has passed; no
/// timeout leaves no bound.
pub fn timeout_remaining(timeout: Option<u64>, elapsed: u64) -> (r: Option<u64>)
    ensures
        r == match timeout {
            None => None,
            Some(t) => Some(
                if t >= elapsed {
                    (t - elapsed) as u64
                } else {
                    0u64
                },
            ),
        },
{
    match timeout {
        None => None,
        Some(t) => Some(t.saturating_sub(elapsed)),
    }
}


/// Turns what happens on a device into requests to its LED array. The hooks' runner hands each
/// hook the device's address and action counter, once at start and then with every BLE event.
///
/// Each hook states what it does: it goes from `self` to `next`, the counter's next value goes
/// from `before` to `after`, and `result` is its request.
pub trait Hook: Sized {
    /// What happens once the device has started.
    spec fn start_effect(
        &self,
        next: Self,
        address: Address,
        before: u32,
        after: u32,
        result: Option<Message>,
    ) -> bool;

    /// What happens in response to `event`.
    spec fn ble_event_effect(
        &self,
        next: Self,
        event: Event,
        address: Address,
        before: u32,
        after: u32,
        result: Option<Message>,
    ) -> bool;

    /// The request, if any, once the device has started.
    fn on_start(&mut self, address: Address, counter: &mut ActionCounter) -> (r: Option<Message>)
        ensures
            old(self).start_effect(
                *final(self),
                address,
                old(counter).next(),
                final(counter).next(),
                r,
            ),
    ;

    /// The request, if any, in response to a BLE event.
    fn on_ble_event(&mut self, event: &Event, address: Address, counter: &mut ActionCounter) -> (r:
        Option<Message>)
        ensures
            old(self).ble_event_effect(
                *final(self),
                *event,
                address,
                old(counter).next(),
                final(counter).next(),
                r,
            ),
    ;
}

/// Whether `r` is a request with the identifier that the counter handed out, for every device.
pub open spec fn fresh_message(r: Message, address: Address, counter: u32) -> bool {
    r.action_id == ActionId { address, counter } && r.filter_devices.is_none()
}

/// Whether the counter moved on by one from `before` to `after`.
pub open spec fn counter_advanced(before: u32, after: u32) -> bool {
    after == (if before == u32::MAX {
        0
    } else {
        (before + 1) as u32
    })
}

/// Whether nothing happened: no request, and neither the hook nor the counter changed.
pub open spec fn quiet<H>(hook: H, next: H, before: u32, after: u32, result: Option<Message>) -> bool {
    next == hook && after == before && result.is_none()
}

/// Whether `result` is a fresh request for `action` and the counter moved on.
pub open spec fn requested(
    address: Address,
    before: u32,
    after: u32,
    result: Option<Message>,
    action: Action,
) -> bool {
    &&& result matches Some(m) && fresh_message(m, address, before) && m.action == action
    &&& counter_advanced(before, after)
}

/// Shows a backwards slide once when the device has started.
pub struct BootHook;

impl Hook for BootHook {
    open spec fn start_effect(
        &self,
        next: Self,
        address: Address,
        before: u32,
        after: u32,
        result: Option<Message>,
    ) -> bool {
        next == *self && requested(
            address,
            before,
            after,
            result,
            Action::SlideBackwards { duration_ms: 800, count: Some(1) },
        )
    }

    open spec fn ble_event_effect(
        &self,
        next: Self,
        event: Event,
        address: Address,
        before: u32,
        after: u32,
        result: Option<Message>,
    ) -> bool {
        quiet(*self, next, before, after, result)
    }

    fn on_start(&mut self, address: Address, counter: &mut ActionCounter) -> (r: Option<Message>) {
        let action_id = ActionId::new(address, counter);
        Some(Message::new(action_id, Action::SlideBackwards { duration_ms: 800, count: Some(1) }))
    }

    fn on_ble_event(&mut self, event: &Event, address: Address, counter: &mut ActionCounter) -> (r:
        Option<Message>) {
        None
    }
}

/// Shows a forwards slide while the device advertises to new hosts, and stops it when the
/// advertisement stops.
pub struct BleAdvertisementHook {
    current: Option<ActionId>,
}

impl BleAdvertisementHook {
    /// The slide that this hook started and has not stopped yet.
    pub closed spec fn current(&self) -> Option<ActionId> {
        self.current
    }

    /// A hook that has not started a slide.
    pub fn new() -> (r: Self)
        ensures
            r.current().is_none(),
    {
        BleAdvertisementHook { current: None }
    }
}

impl Hook for BleAdvertisementHook {
    open spec fn start_effect(
        &self,
        next: Self,
        address: Address,
        before: u32,
        after: u32,
        result: Option<Message>,
    ) -> bool {
        next.current() == self.current() && after == before && result.is_none()
    }

    open spec fn ble_event_effect(
        &self,
        next: Self,
        event: Event,
        address: Address,
        before: u32,
        after: u32,
        result: Option<Message>,
    ) -> bool {
        match event {
            Event::StartedAdvertising { scannable: true } => {
                &&& requested(
                    address,
                    before,
                    after,
                    result,
                    Action::SlideForwards { duration_ms: 800, count: None },
                )
                &&& next.current() == Some(ActionId { address, counter: before })
            },
            Event::StoppedAdvertising { scannable: true } => match self.current() {
                Some(started) => {
                    &&& requested(address, before, after, result, Action::Stop { action_id: started })
                    &&& next.current().is_none()
                },
                None => next.current().is_none() && after == before && result.is_none(),
            },
            _ => next.current() == self.current() && after == before && result.is_none(),
        }
    }

    fn on_start(&mut self, address: Address, counter: &mut ActionCounter) -> (r: Option<Message>) {
        None
    }

    fn on_ble_event(&mut self, event: &Event, address: Address, counter: &mut ActionCounter) -> (r:
        Option<Message>) {
        match event {
            Event::StartedAdvertising { scannable: true } => {
                let action_id = ActionId::new(address, counter);
                self.current = Some(action_id);
                Some(
                    Message::new(action_id, Action::SlideForwards { duration_ms: 800, count: None }),
                )
            },
            Event::StoppedAdvertising { scannable: true } => match self.current.take() {
                Some(started) => {
                    let action_id = ActionId::new(address, counter);
                    Some(Message::new(action_id, Action::Stop { action_id: started }))
                },
                None => None,
            },
            _ => None,
        }
    }
}

/// Lights the LED of a profile for a second when the device switches to that profile.
pub struct BleProfileHook;

impl Hook for BleProfileHook {
    open spec fn start_effect(
        &self,
        next: Self,
        address: Address,
        before: u32,
        after: u32,
        result: Option<Message>,
    ) -> bool {
        quiet(*self, next, before, after, result)
    }

    open spec fn ble_event_effect(
        &self,
        next: Self,
        event: Event,
        address: Address,
        before: u32,
        after: u32,
        result: Option<Message>,
    ) -> bool {
        match event {
            Event::SwitchedProfile { profile_index, .. } => {
                &&& next == *self
                &&& result matches Some(m) && fresh_message(m, address, before) && (
                m.action matches Action::Individual { indices, timeout_ms } && indices@ == seq![
                    profile_index as usize,
                ] && timeout_ms == Some(1000u16))
                &&& counter_advanced(before, after)
            },
            _ => quiet(*self, next, before, after, result),
        }
    }

    fn on_start(&mut self, address: Address, counter: &mut ActionCounter) -> (r: Option<Message>) {
        None
    }

    fn on_ble_event(&mut self, event: &Event, address: Address, counter: &mut ActionCounter) -> (r:
        Option<Message>) {
        match event {
            Event::SwitchedProfile { profile_index, .. } => {
                let action_id = ActionId::new(address, counter);
                let mut indices: Vec<usize> = Vec::new();
                indices.push(*profile_index as usize);
                Some(
                    Message::new(
                        action_id,
                        Action::Individual { indices, timeout_ms: Some(1000) },
                    ),
                )
            },
            _ => None,
        }
    }
}

/// The requests in `r`: none or one.
pub open spec fn requests(r: Option<Message>) -> Seq<Message> {
    match r {
        Some(m) => seq![m],
        None => Seq::empty(),
    }
}

/// A group of hooks that run side by side, the first first; what each asks for is collected in
/// that order.
pub trait HookBundle: Sized {
    /// What happens once the device has started.
    spec fn start_all_effect(
        &self,
        next: Self,
        address: Address,
        before: u32,
        after: u32,
        result: Seq<Message>,
    ) -> bool;

    /// What happens in response to `event`.
    spec fn ble_event_all_effect(
        &self,
        next: Self,
        event: Event,
        address: Address,
        before: u32,
        after: u32,
        result: Seq<Message>,
    ) -> bool;

    /// The requests of all hooks once the device has started.
    fn on_start_all(&mut self, address: Address, counter: &mut ActionCounter) -> (r: Vec<Message>)
        ensures
            old(self).start_all_effect(
                *final(self),
                address,
                old(counter).next(),
                final(counter).next(),
                r@,
            ),
    ;

    /// The requests of all hooks in response to a BLE event.
    fn on_ble_event_all(&mut self, event: &Event, address: Address, counter: &mut ActionCounter) -> (r:
        Vec<Message>)
        ensures
            old(self).ble_event_all_effect(
                *final(self),
                *event,
                address,
                old(counter).next(),
                final(counter).next(),
                r@,
            ),
    ;
}

/// Appends the request, if there is one.
fn collect(messages: &mut Vec<Message>, message: Option<Message>)
    ensures
        final(messages)@ == old(messages)@ + requests(message),
{
    if let Some(m) = message {
        messages.push(m);
    }
    assert(messages@ =~= old(messages)@ + requests(message));
}

impl HookBundle for () {
    open spec fn start_all_effect(
        &self,
        next: Self,
        address: Address,
        before: u32,
        after: u32,
        result: Seq<Message>,
    ) -> bool {
        after == before && result.len() == 0
    }

    open spec fn ble_event_all_effect(
        &self,
        next: Self,
        event: Event,
        address: Address,
        before: u32,
        after: u32,
        result: Seq<Message>,
    ) -> bool {
        after == before && result.len() == 0
    }

    fn on_start_all(&mut self, address: Address, counter: &mut ActionCounter) -> (r: Vec<Message>) {
        Vec::new()
    }

    fn on_ble_event_all(&mut self, event: &Event, address: Address, counter: &mut ActionCounter) -> (r:
        Vec<Message>) {
        Vec::new()
    }
}

impl<A: Hook> HookBundle for (A,) {
    open spec fn start_all_effect(
        &self,
        next: Self,
        address: Address,
        before: u32,
        after: u32,
        result: Seq<Message>,
    ) -> bool {
        exists|r0: Option<Message>|
            #[trigger] self.0.start_effect(next.0, address, before, after, r0) && result
                == requests(r0)
    }

    open spec fn ble_event_all_effect(
        &self,
        next: Self,
        event: Event,
        address: Address,
        before: u32,
        after: u32,
        result: Seq<Message>,
    ) -> bool {
        exists|r0: Option<Message>|
            #[trigger] self.0.ble_event_effect(next.0, event, address, before, after, r0) && result
                == requests(r0)
    }

    fn on_start_all(&mut self, address: Address, counter: &mut ActionCounter) -> (r: Vec<Message>) {
        let mut messages: Vec<Message> = Vec::new();
        let r0 = self.0.on_start(address, counter);
        collect(&mut messages, r0);
        assert(messages@ =~= requests(r0));
        assert(old(self).0.start_effect(self.0, address, old(counter).next(), counter.next(), r0));
        messages
    }

    fn on_ble_event_all(&mut self, event: &Event, address: Address, counter: &mut ActionCounter) -> (r:
        Vec<Message>) {
        let mut messages: Vec<Message> = Vec::new();
        let r0 = self.0.on_ble_event(event, address, counter);
        collect(&mut messages, r0);
        assert(messages@ =~= requests(r0));
        assert(old(self).0.ble_event_effect(
            self.0,
            *event,
            address,
            old(counter).next(),
            counter.next(),
            r0,
        ));
        messages
    }
}

impl<A: Hook, B: Hook> HookBundle for (A, B) {
    open spec fn start_all_effect(
        &self,
        next: Self,
        address: Address,
        before: u32,
        after: u32,
        result: Seq<Message>,
    ) -> bool {
        exists|c1: u32, r0: Option<Message>, r1: Option<Message>|
            #![trigger self.0.start_effect(next.0, address, before, c1, r0), self.1.start_effect(next.1, address, c1, after, r1)]
            self.0.start_effect(next.0, address, before, c1, r0) && self.1.start_effect(
                next.1,
                address,
                c1,
                after,
                r1,
            ) && result == requests(r0) + requests(r1)
    }

    open spec fn ble_event_all_effect(
        &self,
        next: Self,
        event: Event,
        address: Address,
        before: u32,
        after: u32,
        result: Seq<Message>,
    ) -> bool {
        exists|c1: u32, r0: Option<Message>, r1: Option<Message>|
            #![trigger self.0.ble_event_effect(next.0, event, address, before, c1, r0), self.1.ble_event_effect(next.1, event, address, c1, after, r1)]
            self.0.ble_event_effect(next.0, event, address, before, c1, r0)
                && self.1.ble_event_effect(next.1, event, address, c1, after, r1) && result
                == requests(r0) + requests(r1)
    }

    fn on_start_all(&mut self, address: Address, counter: &mut ActionCounter) -> (r: Vec<Message>) {
        let mut messages: Vec<Message> = Vec::new();
        let r0 = self.0.on_start(address, counter);
        let ghost c1 = counter.next();
        collect(&mut messages, r0);
        let r1 = self.1.on_start(address, counter);
        collect(&mut messages, r1);
        assert(messages@ =~= requests(r0) + requests(r1));
        assert(old(self).0.start_effect(self.0, address, old(counter).next(), c1, r0));
        assert(old(self).1.start_effect(self.1, address, c1, counter.next(), r1));
        messages
    }

    fn on_ble_event_all(&mut self, event: &Event, address: Address, counter: &mut ActionCounter) -> (r:
        Vec<Message>) {
        let mut messages: Vec<Message> = Vec::new();
        let r0 = self.0.on_ble_event(event, address, counter);
        let ghost c1 = counter.next();
        collect(&mut messages, r0);
        let r1 = self.1.on_ble_event(event, address, counter);
        collect(&mut messages, r1);
        assert(messages@ =~= requests(r0) + requests(r1));
        assert(old(self).0.ble_event_effect(self.0, *event, address, old(counter).next(), c1, r0));
        assert(old(self).1.ble_event_effect(self.1, *event, address, c1, counter.next(), r1));
        messages
    }
}

impl<A: Hook, B: Hook, C: Hook> HookBundle for (A, B, C) {
    open spec fn start_all_effect(
        &self,
        next: Self,
        address: Address,
        before: u32,
        after: u32,
        result: Seq<Message>,
    ) -> bool {
        exists|c1: u32, c2: u32, r0: Option<Message>, r1: Option<Message>, r2: Option<Message>|
            #![trigger self.0.start_effect(next.0, address, before, c1, r0), self.1.start_effect(next.1, address, c1, c2, r1), self.2.start_effect(next.2, address, c2, after, r2)]
            self.0.start_effect(next.0, address, before, c1, r0) && self.1.start_effect(
                next.1,
                address,
                c1,
                c2,
                r1,
            ) && self.2.start_effect(next.2, address, c2, after, r2) && result == requests(r0)
                + requests(r1) + requests(r2)
    }

    open spec fn ble_event_all_effect(
        &self,
        next: Self,
        event: Event,
        address: Address,
        before: u32,
        after: u32,
        result: Seq<Message>,
    ) -> bool {
        exists|c1: u32, c2: u32, r0: Option<Message>, r1: Option<Message>, r2: Option<Message>|
            #![trigger self.0.ble_event_effect(next.0, event, address, before, c1, r0), self.1.ble_event_effect(next.1, event, address, c1, c2, r1), self.2.ble_event_effect(next.2, event, address, c2, after, r2)]
            self.0.ble_event_effect(next.0, event, address, before, c1, r0)
                && self.1.ble_event_effect(next.1, event, address, c1, c2, r1)
                && self.2.ble_event_effect(next.2, event, address, c2, after, r2) && result
                == requests(r0) + requests(r1) + requests(r2)
    }

    fn on_start_all(&mut self, address: Address, counter: &mut ActionCounter) -> (r: Vec<Message>) {
        let mut messages: Vec<Message> = Vec::new();
        let r0 = self.0.on_start(address, counter);
        let ghost c1 = counter.next();
        collect(&mut messages, r0);
        let r1 = self.1.on_start(address, counter);
        let ghost c2 = counter.next();
        collect(&mut messages, r1);
        let r2 = self.2.on_start(address, counter);
        collect(&mut messages, r2);
        assert(messages@ =~= requests(r0) + requests(r1) + requests(r2));
        assert(old(self).0.start_effect(self.0, address, old(counter).next(), c1, r0));
        assert(old(self).1.start_effect(self.1, address, c1, c2, r1));
        assert(old(self).2.start_effect(self.2, address, c2, counter.next(), r2));
        messages
    }

    fn on_ble_event_all(&mut self, event: &Event, address: Address, counter: &mut ActionCounter) -> (r:
        Vec<Message>) {
        let mut messages: Vec<Message> = Vec::new();
        let r0 = self.0.on_ble_event(event, address, counter);
        let ghost c1 = counter.next();
        collect(&mut messages, r0);
        let r1 = self.1.on_ble_event(event, address, counter);
        let ghost c2 = counter.next();
        collect(&mut messages, r1);
        let r2 = self.2.on_ble_event(event, address, counter);
        collect(&mut messages, r2);
        assert(messages@ =~= requests(r0) + requests(r1) + requests(r2));
        assert(old(self).0.ble_event_effect(self.0, *event, address, old(counter).next(), c1, r0));
        assert(old(self).1.ble_event_effect(self.1, *event, address, c1, c2, r1));
        assert(old(self).2.ble_event_effect(self.2, *event, address, c2, counter.next(), r2));
        messages
    }
}

} // verus!
