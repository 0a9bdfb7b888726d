//! Key overrides: while all keys of an entry are held, the entry's key is sent in their place.
use crate::keyboard::{ExternalMessage, Key};
use vstd::prelude::*;

verus! {

/// One key override: when all `required` keys are pressed, `then_key` is pressed in their place.
/// Unless `keep` is set, the other required keys are released while the override is active.
pub struct KeyOverrideEntry<const NUM_REQUIRED: usize> {
    required: Vec<Key>,
    then_key: Key,
    keep: bool,
}

impl<const NUM_REQUIRED: usize> KeyOverrideEntry<NUM_REQUIRED> {
    /// The keys that trigger the override.
    pub closed spec fn required(&self) -> Seq<Key> {
        self.required@
    }

    /// The key that is pressed while the override is active.
    pub closed spec fn then_key(&self) -> Key {
        self.then_key
    }

    /// Whether the other required keys stay pressed while the override is active.
    pub closed spec fn keep(&self) -> bool {
        self.keep
    }

    /// Creates an override that releases the other required keys while it is active.
    pub fn new(required: Vec<Key>, then_key: Key) -> (r: Self)
        requires
            required.len() <= NUM_REQUIRED,
        ensures
            r.required() == required@,
            r.then_key() == then_key,
            !r.keep(),
    {
        Self { required, then_key, keep: false }
    }

    /// Creates an override that keeps the other required keys pressed while it is active.
    pub fn with_keep(required: Vec<Key>, then_key: Key) -> (r: Self)
        requires
            required.len() <= NUM_REQUIRED,
        ensures
            r.required() == required@,
            r.then_key() == then_key,
            r.keep(),
    {
        Self { required, then_key, keep: true }
    }
}

/// The pressed keys of one override entry, each with its press counter.
pub type PressedKeys = Seq<(Key, usize)>;

/// The index of the entry for `key` in `pressed`, if there is one.
pub open spec fn find_key(pressed: PressedKeys, key: Key) -> Option<int>
    decreases pressed.len(),
{
    if pressed.len() == 0 {
        None
    } else if pressed[0].0 == key {
        Some(0)
    } else {
        match find_key(pressed.drop_first(), key) {
            Some(i) => Some(i + 1),
            None => None,
        }
    }
}

/// Whether `key` has an entry in `pressed`.
pub open spec fn is_pressed(pressed: PressedKeys, key: Key) -> bool {
    exists|j: int| 0 <= j < pressed.len() && #[trigger] pressed[j].0 == key
}

/// Whether all `required` keys have an entry in `pressed`.
pub open spec fn all_pressed(required: Seq<Key>, pressed: PressedKeys) -> bool {
    forall|i: int| 0 <= i < required.len() ==> is_pressed(pressed, #[trigger] required[i])
}

/// The messages for the required keys other than `key`, in order: presses if `press` is set,
/// releases otherwise.
pub open spec fn other_keys(required: Seq<Key>, key: Key, press: bool) -> Seq<ExternalMessage>
    decreases required.len(),
{
    if required.len() == 0 {
        Seq::empty()
    } else {
        let prev = other_keys(required.drop_last(), key, press);
        let v = required.last();
        if v != key {
            prev.push(
                if press {
                    ExternalMessage::KeyPress(v)
                } else {
                    ExternalMessage::KeyRelease(v)
                },
            )
        } else {
            prev
        }
    }
}

/// The pressed keys of an entry after `key` was pressed.
pub open spec fn press_entry(pressed: PressedKeys, key: Key) -> PressedKeys {
    match find_key(pressed, key) {
        Some(j) => pressed.update(j, (key, (pressed[j].1 + 1) as usize)),
        None => pressed.push((key, 1)),
    }
}

/// The pressed keys of an entry after `key` was released, and whether the key's entry left.
pub open spec fn release_entry(pressed: PressedKeys, key: Key) -> (PressedKeys, bool) {
    match find_key(pressed, key) {
        Some(j) => if pressed[j].1 == 0 {
            (pressed.remove(j), true)
        } else {
            (pressed.update(j, (key, (pressed[j].1 - 1) as usize)), false)
        },
        None => (pressed, false),
    }
}

/// The state after the first `k` override entries handled a press of `key`: the pressed keys of
/// all entries, the messages sent so far, and whether an override was triggered.
pub open spec fn press_upto(
    pressed: Seq<PressedKeys>,
    entries: Seq<(Seq<Key>, Key, bool)>,
    key: Key,
    k: nat,
) -> (Seq<PressedKeys>, Seq<ExternalMessage>, bool)
    decreases k,
{
    if k == 0 {
        (pressed, Seq::empty(), false)
    } else {
        let (ps, out, triggered) = press_upto(pressed, entries, key, (k - 1) as nat);
        let (required, then_key, keep) = entries[k - 1];
        if required.contains(key) {
            let p = press_entry(ps[k - 1], key);
            if all_pressed(required, p) {
                (
                    ps.update(k - 1, p),
                    out + if keep {
                        Seq::empty()
                    } else {
                        other_keys(required, key, false)
                    }.push(ExternalMessage::KeyPress(then_key)),
                    true,
                )
            } else {
                (ps.update(k - 1, p), out, triggered)
            }
        } else {
            (ps, out, triggered)
        }
    }
}

/// The state after the first `k` override entries handled a release of `key`: the pressed keys
/// of all entries, the messages sent so far, and whether an override ended.
pub open spec fn release_upto(
    pressed: Seq<PressedKeys>,
    entries: Seq<(Seq<Key>, Key, bool)>,
    key: Key,
    k: nat,
) -> (Seq<PressedKeys>, Seq<ExternalMessage>, bool)
    decreases k,
{
    if k == 0 {
        (pressed, Seq::empty(), false)
    } else {
        let (ps, out, untriggered) = release_upto(pressed, entries, key, (k - 1) as nat);
        let (required, then_key, keep) = entries[k - 1];
        if required.contains(key) {
            let before = ps[k - 1];
            let (p, released_last) = release_entry(before, key);
            if all_pressed(required, before) && released_last {
                (
                    ps.update(k - 1, p),
                    out + if keep {
                        Seq::empty()
                    } else {
                        other_keys(required, key, true)
                    }.push(ExternalMessage::KeyRelease(then_key)),
                    true,
                )
            } else {
                (ps.update(k - 1, p), out, untriggered)
            }
        } else {
            (ps, out, untriggered)
        }
    }
}

/// The pressed keys of all entries and the messages to send after `message`.
pub open spec fn override_result(
    pressed: Seq<PressedKeys>,
    entries: Seq<(Seq<Key>, Key, bool)>,
    message: ExternalMessage,
) -> (Seq<PressedKeys>, Seq<ExternalMessage>) {
    match message {
        ExternalMessage::KeyPress(key) => {
            let (ps, out, triggered) = press_upto(pressed, entries, key, entries.len());
            (ps, if triggered { out } else { out.push(message) })
        },
        ExternalMessage::KeyRelease(key) => {
            let (ps, out, untriggered) = release_upto(pressed, entries, key, entries.len());
            (ps, if untriggered { out } else { out.push(message) })
        },
    }
}

/// The pressed keys of an entry are distinct and required by the entry, and there are at most
/// `cap` of them.
pub open spec fn pressed_wf(pressed: PressedKeys, required: Seq<Key>, cap: int) -> bool {
    &&& forall|a: int, b: int|
        0 <= a < b < pressed.len() ==> #[trigger] pressed[a].0 != #[trigger] pressed[b].0
    &&& forall|a: int| 0 <= a < pressed.len() ==> required.contains(#[trigger] pressed[a].0)
    &&& pressed.len() <= cap
}

/// Replaces key combinations by other keys.
pub struct KeyOverride<const NUM_REQUIRED: usize, const NUM_ENTRIES: usize> {
    pressed_keys: Vec<Vec<(Key, usize)>>,
    overrides: Vec<KeyOverrideEntry<NUM_REQUIRED>>,
}

impl<const NUM_REQUIRED: usize, const NUM_ENTRIES: usize> KeyOverride<NUM_REQUIRED, NUM_ENTRIES> {
    /// The pressed keys of every override entry.
    pub closed spec fn pressed(&self) -> Seq<PressedKeys> {
        self.pressed_keys@.map_values(|v: Vec<(Key, usize)>| v@)
    }

    /// The override entries: their required keys, their key and whether they keep the other
    /// required keys pressed.
    pub closed spec fn entries(&self) -> Seq<(Seq<Key>, Key, bool)> {
        self.overrides@.map_values(
            |e: KeyOverrideEntry<NUM_REQUIRED>| (e.required@, e.then_key, e.keep),
        )
    }

    /// Well-formedness: one set of pressed keys per override, each holding distinct required
    /// keys within the capacity.
    pub open spec fn wf(&self) -> bool {
        &&& self.pressed().len() == NUM_ENTRIES
        &&& self.entries().len() == NUM_ENTRIES
        &&& forall|i: int|
            0 <= i < NUM_ENTRIES ==> pressed_wf(
                #[trigger] self.pressed()[i],
                self.entries()[i].0,
                NUM_REQUIRED as int,
            ) && self.entries()[i].0.len() <= NUM_REQUIRED
    }

    /// Whether pressing `key` again does not overflow a press counter.
    pub open spec fn can_press(&self, key: Key) -> bool {
        forall|i: int, j: int|
            0 <= i < self.pressed().len() && 0 <= j < self.pressed()[i].len()
                && #[trigger] self.pressed()[i][j].0 == key ==> self.pressed()[i][j].1 < usize::MAX
    }

    /// Creates the overrides; no key is pressed.
    pub fn new(overrides: Vec<KeyOverrideEntry<NUM_REQUIRED>>) -> (r: Self)
        requires
            overrides.len() == NUM_ENTRIES,
            forall|i: int| 0 <= i < overrides.len() ==> #[trigger] overrides[i].required().len() <= NUM_REQUIRED,
        ensures
            r.wf(),
            r.entries() == overrides@.map_values(
                |e: KeyOverrideEntry<NUM_REQUIRED>| (e.required(), e.then_key(), e.keep()),
            ),
            forall|i: int| 0 <= i < NUM_ENTRIES ==> #[trigger] r.pressed()[i].len() == 0,
    {
        let mut pressed_keys: Vec<Vec<(Key, usize)>> = Vec::new();
        let mut i: usize = 0;
        while i < overrides.len()
            invariant
                i <= overrides.len(),
                pressed_keys@.len() == i,
                forall|j: int| 0 <= j < i ==> #[trigger] pressed_keys@[j]@.len() == 0,
            decreases overrides.len() - i,
        {
            pressed_keys.push(Vec::new());
            i += 1;
        }
        let r = Self { pressed_keys, overrides };
        proof {
            assert(r.entries() =~= overrides@.map_values(
                |e: KeyOverrideEntry<NUM_REQUIRED>| (e.required(), e.then_key(), e.keep()),
            ));
            assert forall|i: int| 0 <= i < NUM_ENTRIES implies pressed_wf(
                #[trigger] r.pressed()[i],
                r.entries()[i].0,
                NUM_REQUIRED as int,
            ) && r.entries()[i].0.len() <= NUM_REQUIRED by {
                assert(r.pressed()[i] == pressed_keys@[i]@);
            }
        }
        r
    }

    /// Handles a key press or key release, and returns the messages to send in its place, in
    /// order.
    pub fn override_message(&mut self, message: ExternalMessage) -> (out: Vec<ExternalMessage>)
        requires
            old(self).wf(),
            message matches ExternalMessage::KeyPress(key) ==> old(self).can_press(key),
        ensures
            final(self).wf(),
            final(self).entries() == old(self).entries(),
            (final(self).pressed(), out@) == override_result(
                old(self).pressed(),
                old(self).entries(),
                message,
            ),
    {
        let ghost old_pressed = self.pressed();
        let ghost entries = self.entries();
        let mut out: Vec<ExternalMessage> = Vec::new();
        match message {
            ExternalMessage::KeyPress(key) => {
                let mut triggered = false;
                let mut i: usize = 0;
                while i < self.overrides.len()
                    invariant
                        i <= NUM_ENTRIES,
                        self.wf(),
                        self.entries() == entries,
                        entries.len() == NUM_ENTRIES,
                        (self.pressed(), out@, triggered) == press_upto(
                            old_pressed,
                            entries,
                            key,
                            i as nat,
                        ),
                        forall|a: int, b: int|
                            i <= a < self.pressed().len() && 0 <= b < self.pressed()[a].len()
                                && #[trigger] self.pressed()[a][b].0 == key ==> self.pressed()[a][b].1
                                < usize::MAX,
                    decreases NUM_ENTRIES - i,
                {
                    let required_contains = contains_key(&self.overrides[i].required, key);
                    if required_contains {
                        let fired = self.press_in_entry(i, key);
                        if fired {
                            triggered = true;
                            if !self.overrides[i].keep {
                                push_other_keys(&mut out, &self.overrides[i].required, key, false);
                            }
                            out.push(ExternalMessage::KeyPress(self.overrides[i].then_key));
                        }
                    }
                    proof {
                        assert(entries[i as int] == (
                            self.overrides@[i as int].required@,
                            self.overrides@[i as int].then_key,
                            self.overrides@[i as int].keep,
                        ));
                    }
                    i += 1;
                }
                if !triggered {
                    out.push(message);
                }
            },
            ExternalMessage::KeyRelease(key) => {
                let mut untriggered = false;
                let mut i: usize = 0;
                while i < self.overrides.len()
                    invariant
                        i <= NUM_ENTRIES,
                        self.wf(),
                        self.entries() == entries,
                        entries.len() == NUM_ENTRIES,
                        (self.pressed(), out@, untriggered) == release_upto(
                            old_pressed,
                            entries,
                            key,
                            i as nat,
                        ),
                    decreases NUM_ENTRIES - i,
                {
                    let required_contains = contains_key(&self.overrides[i].required, key);
                    if required_contains {
                        let fired = self.release_in_entry(i, key);
                        if fired {
                            untriggered = true;
                            if !self.overrides[i].keep {
                                push_other_keys(&mut out, &self.overrides[i].required, key, true);
                            }
                            out.push(ExternalMessage::KeyRelease(self.overrides[i].then_key));
                        }
                    }
                    proof {
                        assert(entries[i as int] == (
                            self.overrides@[i as int].required@,
                            self.overrides@[i as int].then_key,
                            self.overrides@[i as int].keep,
                        ));
                    }
                    i += 1;
                }
                if !untriggered {
                    out.push(message);
                }
            },
        }
        out
    }

    /// Records a press of `key`, which entry `i` requires, and returns whether all keys of the
    /// entry are pressed now.
    fn press_in_entry(&mut self, i: usize, key: Key) -> (fired: bool)
        requires
            old(self).wf(),
            i < NUM_ENTRIES,
            old(self).entries()[i as int].0.contains(key),
            forall|b: int|
                0 <= b < old(self).pressed()[i as int].len() && #[trigger] old(
                    self,
                ).pressed()[i as int][b].0 == key ==> old(self).pressed()[i as int][b].1
                    < usize::MAX,
        ensures
            final(self).wf(),
            final(self).entries() == old(self).entries(),
            final(self).pressed() == old(self).pressed().update(
                i as int,
                press_entry(old(self).pressed()[i as int], key),
            ),
            fired == all_pressed(
                old(self).entries()[i as int].0,
                press_entry(old(self).pressed()[i as int], key),
            ),
    {
        let ghost before = self.pressed();
        let ghost required = self.entries()[i as int].0;
        let mut p = self.pressed_keys.remove(i);
        proof {
            assert(p@ == before[i as int]);
        }
        match find_pressed(&p, key) {
            Some(j) => {
                let count = p[j].1;
                p.set(j, (key, count + 1));
            },
            None => {
                proof {
                    lemma_find_key_facts(p@, key);
                    lemma_push_distinct_bounded(p@, required, key, NUM_REQUIRED as int);
                }
                p.push((key, 1));
            },
        }
        let ghost after = p@;
        let fired = all_keys_pressed(&self.overrides[i].required, &p);
        self.pressed_keys.insert(i, p);
        proof {
            assert(self.pressed() =~= before.update(i as int, after));
            assert forall|a: int| 0 <= a < NUM_ENTRIES implies pressed_wf(
                #[trigger] self.pressed()[a],
                self.entries()[a].0,
                NUM_REQUIRED as int,
            ) && self.entries()[a].0.len() <= NUM_REQUIRED by {
                if a != i {
                    assert(self.pressed()[a] == before[a]);
                } else {
                    lemma_press_entry_wf(before[a], required, key, NUM_REQUIRED as int);
                }
            }
        }
        fired
    }

    /// Records a release of `key`, which entry `i` requires, and returns whether the entry's
    /// override ends: all its keys were pressed and the entry of `key` left.
    fn release_in_entry(&mut self, i: usize, key: Key) -> (fired: bool)
        requires
            old(self).wf(),
            i < NUM_ENTRIES,
            old(self).entries()[i as int].0.contains(key),
        ensures
            final(self).wf(),
            final(self).entries() == old(self).entries(),
            final(self).pressed() == old(self).pressed().update(
                i as int,
                release_entry(old(self).pressed()[i as int], key).0,
            ),
            fired == (all_pressed(old(self).entries()[i as int].0, old(self).pressed()[i as int])
                && release_entry(old(self).pressed()[i as int], key).1),
    {
        let ghost before = self.pressed();
        let ghost required = self.entries()[i as int].0;
        let mut p = self.pressed_keys.remove(i);
        proof {
            assert(p@ == before[i as int]);
        }
        let all = all_keys_pressed(&self.overrides[i].required, &p);
        let mut released_last = false;
        match find_pressed(&p, key) {
            Some(j) => {
                let count = p[j].1;
                if count == 0 {
                    p.remove(j);
                    released_last = true;
                } else {
                    p.set(j, (key, count - 1));
                }
            },
            None => {},
        }
        let ghost after = p@;
        self.pressed_keys.insert(i, p);
        proof {
            assert(self.pressed() =~= before.update(i as int, after));
            assert forall|a: int| 0 <= a < NUM_ENTRIES implies pressed_wf(
                #[trigger] self.pressed()[a],
                self.entries()[a].0,
                NUM_REQUIRED as int,
            ) && self.entries()[a].0.len() <= NUM_REQUIRED by {
                if a != i {
                    assert(self.pressed()[a] == before[a]);
                } else {
                    lemma_release_entry_wf(before[a], required, key, NUM_REQUIRED as int);
                }
            }
        }
        all && released_last
    }
}

fn contains_key(keys: &Vec<Key>, key: Key) -> (r: bool)
    ensures
        r == keys@.contains(key),
{
    let mut i: usize = 0;
    while i < keys.len()
        invariant
            i <= keys@.len(),
            forall|j: int| 0 <= j < i ==> keys@[j] != key,
        decreases keys@.len() - i,
    {
        if keys[i] == key {
            return true;
        }
        i += 1;
    }
    false
}

fn find_pressed(pressed: &Vec<(Key, usize)>, key: Key) -> (r: Option<usize>)
    ensures
        r matches Some(j) ==> j < pressed@.len() && find_key(pressed@, key) == Some(j as int)
            && pressed@[j as int].0 == key,
        r is None ==> find_key(pressed@, key) is None,
{
    let mut i: usize = 0;
    while i < pressed.len()
        invariant
            i <= pressed@.len(),
            forall|j: int| 0 <= j < i ==> pressed@[j].0 != key,
        decreases pressed@.len() - i,
    {
        if pressed[i].0 == key {
            proof {
                lemma_find_key(pressed@, key, i as int);
            }
            return Some(i);
        }
        i += 1;
    }
    proof {
        lemma_find_key_none(pressed@, key);
    }
    None
}

fn all_keys_pressed(required: &Vec<Key>, pressed: &Vec<(Key, usize)>) -> (r: bool)
    ensures
        r == all_pressed(required@, pressed@),
{
    let mut i: usize = 0;
    while i < required.len()
        invariant
            i <= required@.len(),
            forall|a: int| 0 <= a < i ==> is_pressed(pressed@, #[trigger] required@[a]),
        decreases required@.len() - i,
    {
        let found = find_pressed(pressed, required[i]);
        if found.is_none() {
            proof {
                lemma_find_key_facts(pressed@, required@[i as int]);
            }
            return false;
        }
        i += 1;
    }
    true
}

fn push_other_keys(out: &mut Vec<ExternalMessage>, required: &Vec<Key>, key: Key, press: bool)
    ensures
        final(out)@ == old(out)@ + other_keys(required@, key, press),
{
    let ghost start = out@;
    let mut i: usize = 0;
    while i < required.len()
        invariant
            i <= required@.len(),
            out@ == start + other_keys(required@.take(i as int), key, press),
        decreases required@.len() - i,
    {
        let v = required[i];
        proof {
            assert(required@.take(i as int + 1).drop_last() == required@.take(i as int));
            assert(required@.take(i as int + 1).last() == v);
        }
        if v != key {
            if press {
                out.push(ExternalMessage::KeyPress(v));
            } else {
                out.push(ExternalMessage::KeyRelease(v));
            }
        }
        i += 1;
    }
    proof {
        assert(required@.take(required@.len() as int) == required@);
    }
}

proof fn lemma_find_key(s: PressedKeys, key: Key, i: int)
    requires
        0 <= i < s.len(),
        s[i].0 == key,
        forall|j: int| 0 <= j < i ==> s[j].0 != key,
    ensures
        find_key(s, key) == Some(i),
    decreases i,
{
    if i > 0 {
        lemma_find_key(s.drop_first(), key, i - 1);
    }
}

proof fn lemma_find_key_none(s: PressedKeys, key: Key)
    requires
        forall|j: int| 0 <= j < s.len() ==> s[j].0 != key,
    ensures
        find_key(s, key) is None,
    decreases s.len(),
{
    if s.len() > 0 {
        lemma_find_key_none(s.drop_first(), key);
    }
}

proof fn lemma_find_key_facts(s: PressedKeys, key: Key)
    ensures
        find_key(s, key) matches Some(j) ==> 0 <= j < s.len() && s[j].0 == key,
        find_key(s, key) is None ==> forall|j: int| 0 <= j < s.len() ==> s[j].0 != key,
    decreases s.len(),
{
    if s.len() > 0 {
        lemma_find_key_facts(s.drop_first(), key);
        if find_key(s, key) is None {
            assert forall|j: int| 0 <= j < s.len() implies s[j].0 != key by {
                if j > 0 {
                    assert(s.drop_first()[j - 1] == s[j]);
                }
            }
        }
    }
}

/// A pressed key list that grows by a key that it does not hold yet stays within the capacity:
/// its keys are distinct and all required, so there are at most as many as required keys.
proof fn lemma_push_distinct_bounded(p: PressedKeys, required: Seq<Key>, key: Key, cap: int)
    requires
        pressed_wf(p, required, cap),
        required.len() <= cap,
        required.contains(key),
        forall|j: int| 0 <= j < p.len() ==> p[j].0 != key,
    ensures
        p.len() + 1 <= cap,
{
    let keys = p.push((key, 1usize)).map_values(|e: (Key, usize)| e.0);
    assert forall|a: int, b: int| 0 <= a < keys.len() && 0 <= b < keys.len() && a != b implies keys[a]
        != keys[b] by {
        if a < p.len() && b < p.len() {
            if a < b {
                assert(p[a].0 != p[b].0);
            } else {
                assert(p[b].0 != p[a].0);
            }
        }
    }
    assert(keys.no_duplicates());
    keys.unique_seq_to_set();
    assert(keys.to_set().subset_of(required.to_set())) by {
        assert forall|k: Key| keys.to_set().contains(k) implies required.to_set().contains(k) by {
            let w = choose|w: int| 0 <= w < keys.len() && keys[w] == k;
            if w < p.len() {
                assert(required.contains(p[w].0));
            }
        }
    }
    vstd::set_lib::lemma_len_subset(keys.to_set(), required.to_set());
    required.lemma_cardinality_of_set();
}

proof fn lemma_press_entry_wf(p: PressedKeys, required: Seq<Key>, key: Key, cap: int)
    requires
        pressed_wf(p, required, cap),
        required.len() <= cap,
        required.contains(key),
    ensures
        pressed_wf(press_entry(p, key), required, cap),
{
    lemma_find_key_facts(p, key);
    match find_key(p, key) {
        Some(j) => {
            let q = press_entry(p, key);
            assert forall|a: int, b: int| 0 <= a < b < q.len() implies #[trigger] q[a].0
                != #[trigger] q[b].0 by {
                assert(p[a].0 != p[b].0);
            }
            assert forall|a: int| 0 <= a < q.len() implies required.contains(#[trigger] q[a].0) by {
                assert(required.contains(p[a].0));
            }
        },
        None => {
            lemma_push_distinct_bounded(p, required, key, cap);
            let q = press_entry(p, key);
            assert forall|a: int, b: int| 0 <= a < b < q.len() implies #[trigger] q[a].0
                != #[trigger] q[b].0 by {
                if b < p.len() {
                    assert(p[a].0 != p[b].0);
                }
            }
            assert forall|a: int| 0 <= a < q.len() implies required.contains(#[trigger] q[a].0) by {
                if a < p.len() {
                    assert(required.contains(p[a].0));
                }
            }
        },
    }
}

proof fn lemma_release_entry_wf(p: PressedKeys, required: Seq<Key>, key: Key, cap: int)
    requires
        pressed_wf(p, required, cap),
    ensures
        pressed_wf(release_entry(p, key).0, required, cap),
{
    lemma_find_key_facts(p, key);
    let q = release_entry(p, key).0;
    match find_key(p, key) {
        Some(j) => {
            if p[j].1 == 0 {
                assert forall|a: int, b: int| 0 <= a < b < q.len() implies #[trigger] q[a].0
                    != #[trigger] q[b].0 by {
                    let a2 = if a < j { a } else { a + 1 };
                    let b2 = if b < j { b } else { b + 1 };
                    assert(q[a] == p[a2] && q[b] == p[b2]);
                    assert(p[a2].0 != p[b2].0);
                }
                assert forall|a: int| 0 <= a < q.len() implies required.contains(#[trigger] q[a].0) by {
                    let a2 = if a < j { a } else { a + 1 };
                    assert(q[a] == p[a2]);
                    assert(required.contains(p[a2].0));
                }
            } else {
                assert forall|a: int, b: int| 0 <= a < b < q.len() implies #[trigger] q[a].0
                    != #[trigger] q[b].0 by {
                    assert(p[a].0 != p[b].0);
                }
                assert forall|a: int| 0 <= a < q.len() implies required.contains(#[trigger] q[a].0) by {
                    assert(required.contains(p[a].0));
                }
            }
        },
        None => {},
    }
}

proof fn lemma_untouched_upto(
    pressed: Seq<PressedKeys>,
    entries: Seq<(Seq<Key>, Key, bool)>,
    key: Key,
    k: nat,
)
    requires
        k <= entries.len(),
        forall|i: int| 0 <= i < entries.len() ==> !(#[trigger] entries[i]).0.contains(key),
    ensures
        press_upto(pressed, entries, key, k) == (pressed, Seq::<ExternalMessage>::empty(), false),
        release_upto(pressed, entries, key, k) == (pressed, Seq::<ExternalMessage>::empty(), false),
    decreases k,
{
    if k > 0 {
        lemma_untouched_upto(pressed, entries, key, (k - 1) as nat);
        assert(!entries[k - 1].0.contains(key));
    }
}

/// A key that no override entry requires passes through unchanged: its press or release is sent
/// as it is, and the pressed keys of the entries stay the same.
pub proof fn law_unrelated_key_passes_through(
    pressed: Seq<PressedKeys>,
    entries: Seq<(Seq<Key>, Key, bool)>,
    message: ExternalMessage,
)
    requires
        forall|i: int|
            0 <= i < entries.len() ==> !(#[trigger] entries[i]).0.contains(
                match message {
                    ExternalMessage::KeyPress(k) => k,
                    ExternalMessage::KeyRelease(k) => k,
                },
            ),
    ensures
        override_result(pressed, entries, message) == (pressed, seq![message]),
{
    let key = match message {
        ExternalMessage::KeyPress(k) => k,
        ExternalMessage::KeyRelease(k) => k,
    };
    lemma_untouched_upto(pressed, entries, key, entries.len());
    assert(Seq::<ExternalMessage>::empty().push(message) =~= seq![message]);
}

/// Pressing a key keeps every pressed key pressed and makes the key pressed.
proof fn lemma_press_entry_presses(p: PressedKeys, key: Key)
    ensures
        is_pressed(press_entry(p, key), key),
        forall|r: Key| is_pressed(p, r) ==> is_pressed(press_entry(p, key), r),
{
    lemma_find_key_facts(p, key);
    let q = press_entry(p, key);
    match find_key(p, key) {
        Some(j) => {
            assert(q[j].0 == key);
            assert forall|r: Key| is_pressed(p, r) implies is_pressed(q, r) by {
                let w = choose|w: int| 0 <= w < p.len() && #[trigger] p[w].0 == r;
                assert(q[w].0 == r);
            }
        },
        None => {
            assert(q[p.len() as int].0 == key);
            assert forall|r: Key| is_pressed(p, r) implies is_pressed(q, r) by {
                let w = choose|w: int| 0 <= w < p.len() && #[trigger] p[w].0 == r;
                assert(q[w].0 == r);
            }
        },
    }
}

/// When a press completes the combination of an override (the key is one of its required keys
/// and all others are pressed), the override's key is pressed in its place: the other required
/// keys are released first unless the override keeps them, and the pressed key itself is not
/// sent.
pub proof fn law_override_triggers_on_completed_combination(
    p: PressedKeys,
    required: Seq<Key>,
    then_key: Key,
    keep: bool,
    key: Key,
)
    requires
        required.contains(key),
        forall|i: int| 0 <= i < required.len() && required[i] != key ==> is_pressed(p, required[i]),
    ensures
        override_result(seq![p], seq![(required, then_key, keep)], ExternalMessage::KeyPress(key))
            == (
            seq![press_entry(p, key)],
            (if keep {
                Seq::empty()
            } else {
                other_keys(required, key, false)
            }).push(ExternalMessage::KeyPress(then_key)),
        ),
{
    let entries = seq![(required, then_key, keep)];
    let q = press_entry(p, key);
    lemma_press_entry_presses(p, key);
    assert(all_pressed(required, q)) by {
        assert forall|i: int| 0 <= i < required.len() implies is_pressed(q, #[trigger] required[i]) by {
            if required[i] != key {
                assert(is_pressed(p, required[i]));
            }
        }
    }
    reveal_with_fuel(press_upto, 2);
    assert(press_upto(seq![p], entries, key, 0) == (seq![p], Seq::<ExternalMessage>::empty(), false));
    assert(seq![p].update(0, q) =~= seq![q]);
    assert(Seq::<ExternalMessage>::empty() + (if keep {
        Seq::empty()
    } else {
        other_keys(required, key, false)
    }).push(ExternalMessage::KeyPress(then_key)) =~= (if keep {
        Seq::empty()
    } else {
        other_keys(required, key, false)
    }).push(ExternalMessage::KeyPress(then_key)));
}

} // verus!
