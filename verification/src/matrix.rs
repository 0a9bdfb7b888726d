//! Key scanners: keys wired in a matrix of inputs and outputs, or each to a pin of its own, and
//! the debouncing of their readings.
use crate::keyboard::Message;
use vstd::prelude::*;

verus! {

/// Configuration for debouncing key switches. Durations are in microseconds.
#[derive(Debug, Clone, Copy, PartialEq, Eq, Structural)]
pub enum Debounce {
    /// Waits for no key changes for the specified duration before reporting the key change.
    ///
    /// This debounce algorithm is noise-resistant.
    Defer { duration: u64 },
    /// Reports the key change immediately and ignores further changes for the specified duration.
    ///
    /// This debounce algorithm is not noise-resistant.
    Eager { duration: u64 },
    /// Performs no debouncing.
    Disabled,
}

impl Default for Debounce {
    fn default() -> (r: Self)
        ensures
            r == (Debounce::Defer { duration: 5000 }),
    {
        Debounce::Defer { duration: 5000 }
    }
}

impl Debounce {
    /// How long a waiting function of the debouncer waits after a change was reported, in
    /// microseconds: the duration of an eager debouncer, nothing otherwise.
    pub fn wait_after_change(&self) -> (r: u64)
        ensures
            r == match *self {
                Debounce::Eager { duration } => duration,
                _ => 0,
            },
    {
        match self {
            Debounce::Eager { duration } => *duration,
            _ => 0,
        }
    }
}

/// Configuration for the [`Matrix`] scanner.
#[derive(Debug, Clone, Copy)]
pub struct MatrixConfig {
    pub debounce_key_press: Debounce,
    pub debounce_key_release: Debounce,
}

impl Default for MatrixConfig {
    fn default() -> (r: Self)
        ensures
            r.debounce_key_press == (Debounce::Defer { duration: 5000 }),
            r.debounce_key_release == (Debounce::Defer { duration: 5000 }),
    {
        MatrixConfig { debounce_key_press: Debounce::default(), debounce_key_release: Debounce::default() }
    }
}

/// Configuration for the [`DirectPins`] scanner.
#[derive(Debug, Clone, Copy)]
pub struct DirectPinsConfig {
    pub debounce_key_press: Debounce,
    pub debounce_key_release: Debounce,
}

impl Default for DirectPinsConfig {
    fn default() -> (r: Self)
        ensures
            r.debounce_key_press == (Debounce::Defer { duration: 5000 }),
            r.debounce_key_release == (Debounce::Defer { duration: 5000 }),
    {
        DirectPinsConfig {
            debounce_key_press: Debounce::default(),
            debounce_key_release: Debounce::default(),
        }
    }
}

/// The first index at which `s` holds `v`, if there is one.
pub open spec fn first_position<T>(s: Seq<T>, v: T) -> Option<int>
    decreases s.len(),
{
    if s.len() == 0 {
        None
    } else if s[0] == v {
        Some(0)
    } else {
        match first_position(s.drop_first(), v) {
            Some(i) => Some(i + 1),
            None => None,
        }
    }
}

proof fn lemma_first_position<T>(s: Seq<T>, v: T, i: int)
    requires
        0 <= i < s.len(),
        s[i] == v,
        forall|j: int| 0 <= j < i ==> s[j] != v,
    ensures
        first_position(s, v) == Some(i),
    decreases i,
{
    if i > 0 {
        lemma_first_position(s.drop_first(), v, i - 1);
    }
}

proof fn lemma_first_position_none<T>(s: Seq<T>, v: T)
    requires
        forall|j: int| 0 <= j < s.len() ==> s[j] != v,
    ensures
        first_position(s, v) is None,
    decreases s.len(),
{
    if s.len() > 0 {
        lemma_first_position_none(s.drop_first(), v);
    }
}

/// Scanner for keys that are arranged in a keyboard matrix.
///
/// The transform maps each key index to the pair of input and output index of its switch.
pub struct Matrix<I, O, const NUM_IS: usize, const NUM_OS: usize, const NUM_KEYS: usize> {
    input_switches: [I; NUM_IS],
    output_switches: [O; NUM_OS],
    transform: Vec<Option<(usize, usize)>>,
}

impl<I, O, const NUM_IS: usize, const NUM_OS: usize> Matrix<I, O, NUM_IS, NUM_OS, 0> {
    /// Creates a matrix scanner in which no key is mapped yet.
    pub fn new<const NUM_KEYS: usize>(input_switches: [I; NUM_IS], output_switches: [O; NUM_OS]) -> (r:
        Matrix<I, O, NUM_IS, NUM_OS, NUM_KEYS>)
        ensures
            r.transform() == Seq::new(NUM_KEYS as nat, |k: int| None::<(usize, usize)>),
    {
        let mut transform: Vec<Option<(usize, usize)>> = Vec::new();
        let mut k: usize = 0;
        while k < NUM_KEYS
            invariant
                k <= NUM_KEYS,
                transform@ == Seq::new(k as nat, |j: int| None::<(usize, usize)>),
            decreases NUM_KEYS - k,
        {
            transform.push(None);
            proof {
                assert(transform@ =~= Seq::new((k + 1) as nat, |j: int| None::<(usize, usize)>));
            }
            k += 1;
        }
        Matrix { input_switches, output_switches, transform }
    }
}

impl<I, O, const NUM_IS: usize, const NUM_OS: usize, const NUM_KEYS: usize> Matrix<
    I,
    O,
    NUM_IS,
    NUM_OS,
    NUM_KEYS,
> {
    /// For each key index, the input and output index of its switch, if it is mapped.
    pub closed spec fn transform(&self) -> Seq<Option<(usize, usize)>> {
        self.transform@
    }

    /// The input switches.
    pub closed spec fn input_switches(&self) -> [I; NUM_IS] {
        self.input_switches
    }

    /// The output switches.
    pub closed spec fn output_switches(&self) -> [O; NUM_OS] {
        self.output_switches
    }

    /// Takes the switches out of the matrix, to scan them.
    pub fn into_switches(self) -> (r: ([I; NUM_IS], [O; NUM_OS]))
        ensures
            r.0 == self.input_switches(),
            r.1 == self.output_switches(),
    {
        (self.input_switches, self.output_switches)
    }

    /// Well-formedness: there is one transform entry per key index.
    pub open spec fn wf(&self) -> bool {
        self.transform().len() == NUM_KEYS
    }

    /// Maps the key index `KEY_INDEX` to the switch at input `I_INDEX` and output `O_INDEX`.
    pub fn map<const I_INDEX: usize, const O_INDEX: usize, const KEY_INDEX: usize>(self) -> (r:
        Self)
        requires
            self.wf(),
            KEY_INDEX < NUM_KEYS,
        ensures
            r.wf(),
            r.transform() == self.transform().update(KEY_INDEX as int, Some((I_INDEX, O_INDEX))),
    {
        let mut this = self;
        this.transform.set(KEY_INDEX, Some((I_INDEX, O_INDEX)));
        this
    }

    /// Maps the first key index that is not mapped yet to the switch at input `I_INDEX` and
    /// output `O_INDEX`. Does nothing if all key indices are mapped.
    pub fn map_next<const I_INDEX: usize, const O_INDEX: usize>(self) -> (r: Self)
        requires
            self.wf(),
        ensures
            r.wf(),
            first_position(self.transform(), None) matches Some(k) ==> r.transform()
                == self.transform().update(k, Some((I_INDEX, O_INDEX))),
            first_position(self.transform(), None) is None ==> r.transform() == self.transform(),
    {
        let mut this = self;
        let mut i: usize = 0;
        while i < this.transform.len()
            invariant
                i <= this.transform@.len(),
                this.transform@ == self.transform@,
                self.wf(),
                forall|j: int| 0 <= j < i ==> this.transform@[j] != None::<(usize, usize)>,
            decreases this.transform@.len() - i,
        {
            if this.transform[i].is_none() {
                proof {
                    lemma_first_position(this.transform@, None, i as int);
                }
                this.transform.set(i, Some((I_INDEX, O_INDEX)));
                return this;
            }
            i += 1;
        }
        proof {
            lemma_first_position_none(this.transform@, None);
        }
        this
    }

    /// Maps the switches of the given rows (inputs) and columns (outputs) to consecutive key
    /// indices, row by row, starting at `start_key_index`.
    pub fn map_rows_and_cols<const NUM_ROWS: usize, const NUM_COLS: usize>(
        self,
        input_indices: [usize; NUM_ROWS],
        output_indices: [usize; NUM_COLS],
        start_key_index: usize,
    ) -> (r: Self)
        requires
            self.wf(),
            start_key_index + NUM_ROWS * NUM_COLS <= NUM_KEYS,
        ensures
            r.wf(),
            forall|i: int, j: int|
                0 <= i < NUM_ROWS && 0 <= j < NUM_COLS ==> r.transform()[start_key_index + i
                    * NUM_COLS + j] == Some((input_indices@[i], output_indices@[j])),
            forall|k: int|
                0 <= k < NUM_KEYS && !(start_key_index <= k < start_key_index + NUM_ROWS * NUM_COLS)
                    ==> #[trigger] r.transform()[k] == self.transform()[k],
    {
        let mut this = self;
        let ghost old_transform = this.transform@;
        let mut key_index = start_key_index;
        let mut i: usize = 0;
        while i < NUM_ROWS
            invariant
                i <= NUM_ROWS,
                this.transform@.len() == NUM_KEYS,
                start_key_index + NUM_ROWS * NUM_COLS <= NUM_KEYS,
                key_index == start_key_index + i * NUM_COLS,
                i * NUM_COLS <= NUM_ROWS * NUM_COLS,
                forall|a: int, b: int|
                    0 <= a < i && 0 <= b < NUM_COLS ==> this.transform@[start_key_index + a
                        * NUM_COLS + b] == Some((input_indices@[a], output_indices@[b])),
                forall|k: int|
                    0 <= k < NUM_KEYS && !(start_key_index <= k < start_key_index + i * NUM_COLS)
                        ==> #[trigger] this.transform@[k] == old_transform[k],
            decreases NUM_ROWS - i,
        {
            proof {
                assert((i + 1) * NUM_COLS <= NUM_ROWS * NUM_COLS) by (nonlinear_arith)
                    requires
                        i < NUM_ROWS,
                ;
                assert((i + 1) * NUM_COLS == i * NUM_COLS + NUM_COLS) by (nonlinear_arith);
            }
            let input_index = input_indices[i];
            let mut j: usize = 0;
            while j < NUM_COLS
                invariant
                    j <= NUM_COLS,
                    i < NUM_ROWS,
                    this.transform@.len() == NUM_KEYS,
                    key_index == start_key_index + i * NUM_COLS + j,
                    start_key_index + (i + 1) * NUM_COLS <= NUM_KEYS,
                    (i + 1) * NUM_COLS == i * NUM_COLS + NUM_COLS,
                    input_index == input_indices@[i as int],
                    forall|a: int, b: int|
                        0 <= a < i && 0 <= b < NUM_COLS ==> this.transform@[start_key_index + a
                            * NUM_COLS + b] == Some((input_indices@[a], output_indices@[b])),
                    forall|b: int|
                        0 <= b < j ==> this.transform@[start_key_index + i * NUM_COLS + b] == Some(
                            (input_indices@[i as int], output_indices@[b]),
                        ),
                    forall|k: int|
                        0 <= k < NUM_KEYS && !(start_key_index <= k < start_key_index + i
                            * NUM_COLS + j) ==> #[trigger] this.transform@[k] == old_transform[k],
                decreases NUM_COLS - j,
            {
                let output_index = output_indices[j];
                let ghost before = this.transform@;
                this.transform.set(key_index, Some((input_index, output_index)));
                proof {
                    assert forall|a: int, b: int|
                        0 <= a < i && 0 <= b < NUM_COLS implies this.transform@[start_key_index + a
                            * NUM_COLS + b] == Some((input_indices@[a], output_indices@[b])) by {
                        assert(a * NUM_COLS + b < i * NUM_COLS) by (nonlinear_arith)
                            requires
                                a < i,
                                b < NUM_COLS,
                        ;
                        assert(before[start_key_index + a * NUM_COLS + b] == Some(
                            (input_indices@[a], output_indices@[b]),
                        ));
                    }
                }
                key_index += 1;
                j += 1;
            }
            proof {
                assert forall|a: int, b: int|
                    0 <= a < i + 1 && 0 <= b < NUM_COLS implies this.transform@[start_key_index
                        + a * NUM_COLS + b] == Some((input_indices@[a], output_indices@[b])) by {
                    if a == i {
                    }
                }
            }
            i += 1;
        }
        this
    }

    /// The key index of the switch at input `input` and output `output`: the first key index
    /// mapped to it, truncated to 16 bits, if there is one.
    pub fn key_index(&self, input: usize, output: usize) -> (r: Option<u16>)
        ensures
            first_position(self.transform(), Some((input, output))) matches Some(k) ==> r == Some(
                k as u16,
            ),
            first_position(self.transform(), Some((input, output))) is None ==> r is None,
    {
        let mut k: usize = 0;
        while k < self.transform.len()
            invariant
                k <= self.transform@.len(),
                forall|j: int| 0 <= j < k ==> self.transform@[j] != Some((input, output)),
            decreases self.transform@.len() - k,
        {
            if self.transform[k] == Some((input, output)) {
                proof {
                    lemma_first_position(self.transform@, Some((input, output)), k as int);
                }
                return Some(k as u16);
            }
            k += 1;
        }
        proof {
            lemma_first_position_none(self.transform@, Some((input, output)));
        }
        None
    }
}

/// Scanner for keys that are each connected to a single pin.
///
/// The transform maps each key index to the index of its pin.
pub struct DirectPins<I, const NUM_IS: usize, const NUM_KEYS: usize> {
    pins: [I; NUM_IS],
    transform: Vec<Option<usize>>,
}

impl<I, const NUM_IS: usize> DirectPins<I, NUM_IS, 0> {
    /// Creates a direct pin scanner in which no key is mapped yet.
    pub fn new<const NUM_KEYS: usize>(pins: [I; NUM_IS]) -> (r: DirectPins<I, NUM_IS, NUM_KEYS>)
        ensures
            r.transform() == Seq::new(NUM_KEYS as nat, |k: int| None::<usize>),
    {
        let mut transform: Vec<Option<usize>> = Vec::new();
        let mut k: usize = 0;
        while k < NUM_KEYS
            invariant
                k <= NUM_KEYS,
                transform@ == Seq::new(k as nat, |j: int| None::<usize>),
            decreases NUM_KEYS - k,
        {
            transform.push(None);
            proof {
                assert(transform@ =~= Seq::new((k + 1) as nat, |j: int| None::<usize>));
            }
            k += 1;
        }
        DirectPins { pins, transform }
    }
}

impl<I, const NUM_IS: usize, const NUM_KEYS: usize> DirectPins<I, NUM_IS, NUM_KEYS> {
    /// For each key index, the index of its pin, if it is mapped.
    pub closed spec fn transform(&self) -> Seq<Option<usize>> {
        self.transform@
    }

    /// The pins.
    pub closed spec fn pins(&self) -> [I; NUM_IS] {
        self.pins
    }

    /// Takes the pins out of the scanner, to scan them.
    pub fn into_pins(self) -> (r: [I; NUM_IS])
        ensures
            r == self.pins(),
    {
        self.pins
    }

    /// Well-formedness: there is one transform entry per key index.
    pub open spec fn wf(&self) -> bool {
        self.transform().len() == NUM_KEYS
    }

    /// Maps the key index `INDEX_KEYS` to the pin with index `INDEX_I`.
    pub fn map<const INDEX_I: usize, const INDEX_KEYS: usize>(self) -> (r: Self)
        requires
            self.wf(),
            INDEX_KEYS < NUM_KEYS,
        ensures
            r.wf(),
            r.transform() == self.transform().update(INDEX_KEYS as int, Some(INDEX_I)),
    {
        let mut this = self;
        this.transform.set(INDEX_KEYS, Some(INDEX_I));
        this
    }

    /// Maps the key indices from `OFFSET` on to the pins in order.
    pub fn continuous<const OFFSET: usize>(self) -> (r: Self)
        requires
            self.wf(),
            OFFSET + NUM_IS <= NUM_KEYS,
        ensures
            r.wf(),
            forall|k: int|
                0 <= k < NUM_KEYS ==> #[trigger] r.transform()[k] == if OFFSET <= k < OFFSET
                    + NUM_IS {
                    Some((k - OFFSET) as usize)
                } else {
                    self.transform()[k]
                },
    {
        let mut this = self;
        let ghost old_transform = this.transform@;
        let mut i: usize = 0;
        while i < NUM_IS
            invariant
                i <= NUM_IS,
                OFFSET + NUM_IS <= NUM_KEYS,
                this.transform@.len() == NUM_KEYS,
                forall|k: int|
                    0 <= k < NUM_KEYS ==> #[trigger] this.transform@[k] == if OFFSET <= k < OFFSET
                        + i {
                        Some((k - OFFSET) as usize)
                    } else {
                        old_transform[k]
                    },
            decreases NUM_IS - i,
        {
            this.transform.set(i + OFFSET, Some(i));
            i += 1;
        }
        this
    }

    /// The key index of the pin with index `pin`: the first key index mapped to it, if there is
    /// one.
    pub fn key_index(&self, pin: usize) -> (r: Option<u16>)
        requires
            self.wf(),
            NUM_KEYS <= 65536,
        ensures
            first_position(self.transform(), Some(pin)) matches Some(k) ==> r == Some(k as u16),
            first_position(self.transform(), Some(pin)) is None ==> r is None,
    {
        let mut k: usize = 0;
        while k < self.transform.len()
            invariant
                k <= self.transform@.len(),
                self.transform@.len() <= 65536,
                forall|j: int| 0 <= j < k ==> self.transform@[j] != Some(pin),
            decreases self.transform@.len() - k,
        {
            if self.transform[k] == Some(pin) {
                proof {
                    lemma_first_position(self.transform@, Some(pin), k as int);
                }
                return Some(k as u16);
            }
            k += 1;
        }
        proof {
            lemma_first_position_none(self.transform@, Some(pin));
        }
        None
    }
}

/// Scanner component that drives a scanner driver with its configuration.
pub struct Scanner<C, const NUM_KEYS: usize> {
    config: C,
}

impl<C, const NUM_KEYS: usize> Scanner<C, NUM_KEYS> {
    /// The configuration that the scanner hands to its driver.
    pub closed spec fn config(&self) -> C {
        self.config
    }

    /// Creates a scanner with the default configuration.
    pub fn new() -> (r: Self) where C: Default
        ensures
            call_ensures(C::default, (), r.config()),
    {
        Scanner { config: C::default() }
    }

    /// Creates a scanner with the given configuration.
    pub fn with_config(config: C) -> (r: Self)
        ensures
            r.config() == config,
    {
        Scanner { config }
    }

    /// Takes the configuration out of the scanner, to hand it to its driver.
    pub fn into_config(self) -> (r: C)
        ensures
            r == self.config(),
    {
        self.config
    }
}

/// The first index at which `timeouts` holds an entry for `key_index`, if there is one.
pub open spec fn find_timeout(timeouts: Seq<(u16, u64)>, key_index: u16) -> Option<int>
    decreases timeouts.len(),
{
    if timeouts.len() == 0 {
        None
    } else if timeouts[0].0 == key_index {
        Some(0)
    } else {
        match find_timeout(timeouts.drop_first(), key_index) {
            Some(i) => Some(i + 1),
            None => None,
        }
    }
}

/// The first index at which `defers` holds an entry for `key_index`, if there is one.
pub open spec fn find_defer(defers: Seq<(u16, u64, bool)>, key_index: u16) -> Option<int>
    decreases defers.len(),
{
    if defers.len() == 0 {
        None
    } else if defers[0].0 == key_index {
        Some(0)
    } else {
        match find_defer(defers.drop_first(), key_index) {
            Some(i) => Some(i + 1),
            None => None,
        }
    }
}

/// The debouncing state of a matrix scan: the last reading of every switch (by output, then
/// input), the keys in their eager debounce period with the time it started, and the keys with
/// a deferred change with the time of the change and the state it changed to.
pub struct MatrixScanState {
    states: Vec<Vec<bool>>,
    timeouts: Vec<(u16, u64)>,
    defers: Vec<(u16, u64, bool)>,
}

/// The outcome of reading one switch during a matrix scan: the new switch states, eager
/// timeouts and deferred changes, and the message to send, if any.
pub open spec fn scan_outcome(
    states: Seq<Seq<bool>>,
    timeouts: Seq<(u16, u64)>,
    defers: Seq<(u16, u64, bool)>,
    config: MatrixConfig,
    output: int,
    input: int,
    key_index: u16,
    is_active: bool,
    now: u64,
) -> (Seq<Seq<bool>>, Seq<(u16, u64)>, Seq<(u16, u64, bool)>, Option<Message>) {
    let changed = is_active != states[output][input];
    let debounce = if is_active {
        config.debounce_key_press
    } else {
        config.debounce_key_release
    };
    // An eager debouncer ignores changes within its duration after the last reported one.
    let (ignored, timeouts1) = match debounce {
        Debounce::Eager { duration } => if changed {
            match find_timeout(timeouts, key_index) {
                Some(t) => if now - timeouts[t].1 <= duration {
                    (true, timeouts)
                } else {
                    (false, timeouts.remove(t).push((key_index, now)))
                },
                None => (false, timeouts.push((key_index, now))),
            }
        } else {
            (false, timeouts)
        },
        _ => (false, timeouts),
    };
    if ignored {
        (states, timeouts, defers, None)
    } else {
        let states1 = states.update(output, states[output].update(input, is_active));
        match find_defer(defers, key_index) {
            Some(d) => {
                let (_, last_change, pending) = defers[d];
                let defer_duration = match debounce {
                    Debounce::Defer { duration } => duration,
                    _ => 0,
                };
                if changed {
                    if is_active == pending {
                        // The switch changed to the pending state again: the wait starts anew.
                        (states1, timeouts1, defers.update(d, (key_index, now, is_active)), None)
                    } else {
                        // The switch went back: the pending change is dropped.
                        (states1, timeouts1, defers.remove(d), None)
                    }
                } else if now - last_change > defer_duration {
                    (
                        states1,
                        timeouts1,
                        defers.remove(d),
                        Some(
                            if pending {
                                Message::Press { key_index }
                            } else {
                                Message::Release { key_index }
                            },
                        ),
                    )
                } else {
                    (states1, timeouts1, defers, None)
                }
            },
            None => if changed {
                (states1, timeouts1, defers.push((key_index, now, is_active)), None)
            } else {
                (states1, timeouts1, defers, None)
            },
        }
    }
}

impl MatrixScanState {
    /// The last reading of every switch, by output and then input.
    pub closed spec fn states(&self) -> Seq<Seq<bool>> {
        self.states@.map_values(|row: Vec<bool>| row@)
    }

    /// The keys in their eager debounce period, with the time it started.
    pub closed spec fn timeouts(&self) -> Seq<(u16, u64)> {
        self.timeouts@
    }

    /// The keys with a deferred change, with the time of the switch's last change and the state
    /// that the key changes to.
    pub closed spec fn defers(&self) -> Seq<(u16, u64, bool)> {
        self.defers@
    }

    /// Whether all recorded times lie at or before `now`.
    pub open spec fn times_at_most(&self, now: u64) -> bool {
        &&& forall|t: int| 0 <= t < self.timeouts().len() ==> #[trigger] self.timeouts()[t].1 <= now
        &&& forall|d: int| 0 <= d < self.defers().len() ==> #[trigger] self.defers()[d].1 <= now
    }

    /// Creates the state for a matrix with the given numbers of outputs and inputs, with all
    /// switches inactive.
    pub fn new(num_outputs: usize, num_inputs: usize) -> (r: Self)
        ensures
            r.states() == Seq::new(
                num_outputs as nat,
                |i: int| Seq::new(num_inputs as nat, |j: int| false),
            ),
            r.timeouts() == Seq::<(u16, u64)>::empty(),
            r.defers() == Seq::<(u16, u64, bool)>::empty(),
    {
        let mut states: Vec<Vec<bool>> = Vec::new();
        let mut i: usize = 0;
        while i < num_outputs
            invariant
                i <= num_outputs,
                states@.len() == i,
                forall|a: int| 0 <= a < i ==> #[trigger] states@[a]@ == Seq::new(num_inputs as nat, |j: int| false),
            decreases num_outputs - i,
        {
            let mut row: Vec<bool> = Vec::new();
            let mut j: usize = 0;
            while j < num_inputs
                invariant
                    j <= num_inputs,
                    row@ == Seq::new(j as nat, |b: int| false),
                decreases num_inputs - j,
            {
                row.push(false);
                proof {
                    assert(row@ =~= Seq::new((j + 1) as nat, |b: int| false));
                }
                j += 1;
            }
            states.push(row);
            i += 1;
        }
        let r = MatrixScanState { states, timeouts: Vec::new(), defers: Vec::new() };
        proof {
            assert(r.states() =~= Seq::new(
                num_outputs as nat,
                |i: int| Seq::new(num_inputs as nat, |j: int| false),
            ));
        }
        r
    }

    /// Handles the reading `is_active` of the switch at `output` and `input`, which belongs to
    /// the key `key_index`, taken at time `now` (in microseconds). Returns the message to send
    /// for the key, if a debounced change is complete.
    pub fn scan_key(
        &mut self,
        config: &MatrixConfig,
        output: usize,
        input: usize,
        key_index: u16,
        is_active: bool,
        now: u64,
    ) -> (r: Option<Message>)
        requires
            output < old(self).states().len(),
            input < old(self).states()[output as int].len(),
            old(self).times_at_most(now),
        ensures
            (final(self).states(), final(self).timeouts(), final(self).defers(), r)
                == scan_outcome(
                old(self).states(),
                old(self).timeouts(),
                old(self).defers(),
                *config,
                output as int,
                input as int,
                key_index,
                is_active,
                now,
            ),
            final(self).times_at_most(now),
    {
        let ghost old_states = self.states();
        let ghost old_timeouts = old(self).timeouts();
        let ghost old_defers = old(self).defers();
        let previous = self.states[output][input];
        let changed = is_active != previous;
        let debounce = if is_active {
            config.debounce_key_press
        } else {
            config.debounce_key_release
        };
        if let Debounce::Eager { duration } = debounce {
            if changed {
                if let Some(t) = find_timeout_index(&self.timeouts, key_index) {
                    let started = self.timeouts[t].1;
                    proof {
                        assert(old_timeouts[t as int].1 <= now);
                    }
                    if now - started <= duration {
                        return None;
                    }
                    self.timeouts.remove(t);
                }
                self.timeouts.push((key_index, now));
            }
        }
        let mut row = self.states[output].clone();
        proof {
            assert(row@ =~= old_states[output as int]);
        }
        row.set(input, is_active);
        self.states.set(output, row);
        proof {
            assert(self.states() =~= old_states.update(
                output as int,
                old_states[output as int].update(input as int, is_active),
            ));
        }
        let mut message = None;
        match find_defer_index(&self.defers, key_index) {
            Some(d) => {
                let (_, last_change, pending) = self.defers[d];
                proof {
                    assert(old_defers[d as int].1 <= now);
                }
                let defer_duration = match debounce {
                    Debounce::Defer { duration } => duration,
                    _ => 0,
                };
                if changed {
                    if is_active == pending {
                        self.defers.set(d, (key_index, now, is_active));
                    } else {
                        self.defers.remove(d);
                    }
                } else if now - last_change > defer_duration {
                    self.defers.remove(d);
                    message = Some(
                        if pending {
                            Message::Press { key_index }
                        } else {
                            Message::Release { key_index }
                        },
                    );
                }
            },
            None => {
                if changed {
                    self.defers.push((key_index, now, is_active));
                }
            },
        }
        proof {
            assert forall|t: int| 0 <= t < self.timeouts@.len() implies #[trigger] self.timeouts@[t].1 <= now by {
                if exists|u: int| 0 <= u < old_timeouts.len() && old_timeouts[u] == self.timeouts@[t] {
                    let u = choose|u: int| 0 <= u < old_timeouts.len() && old_timeouts[u] == self.timeouts@[t];
                    assert(old_timeouts[u].1 <= now);
                }
            }
            assert forall|d: int| 0 <= d < self.defers@.len() implies #[trigger] self.defers@[d].1 <= now by {
                if exists|u: int| 0 <= u < old_defers.len() && old_defers[u] == self.defers@[d] {
                    let u = choose|u: int| 0 <= u < old_defers.len() && old_defers[u] == self.defers@[d];
                    assert(old_defers[u].1 <= now);
                }
            }
        }
        message
    }

    /// Whether the scan can stop: no key is active and no debounce period or deferred change is
    /// pending.
    pub fn is_settled(&self, any_active: bool) -> (r: bool)
        ensures
            r == (!any_active && self.defers().len() == 0 && self.timeouts().len() == 0),
    {
        !any_active && self.defers.len() == 0 && self.timeouts.len() == 0
    }
}

fn find_timeout_index(timeouts: &Vec<(u16, u64)>, key_index: u16) -> (r: Option<usize>)
    ensures
        r matches Some(t) ==> t < timeouts@.len() && find_timeout(timeouts@, key_index) == Some(
            t as int,
        ),
        r is None ==> find_timeout(timeouts@, key_index) is None,
{
    let mut i: usize = 0;
    while i < timeouts.len()
        invariant
            i <= timeouts@.len(),
            forall|j: int| 0 <= j < i ==> timeouts@[j].0 != key_index,
        decreases timeouts@.len() - i,
    {
        if timeouts[i].0 == key_index {
            proof {
                lemma_find_timeout(timeouts@, key_index, i as int);
            }
            return Some(i);
        }
        i += 1;
    }
    proof {
        lemma_find_timeout_none(timeouts@, key_index);
    }
    None
}

fn find_defer_index(defers: &Vec<(u16, u64, bool)>, key_index: u16) -> (r: Option<usize>)
    ensures
        r matches Some(d) ==> d < defers@.len() && find_defer(defers@, key_index) == Some(d as int),
        r is None ==> find_defer(defers@, key_index) is None,
{
    let mut i: usize = 0;
    while i < defers.len()
        invariant
            i <= defers@.len(),
            forall|j: int| 0 <= j < i ==> defers@[j].0 != key_index,
        decreases defers@.len() - i,
    {
        if defers[i].0 == key_index {
            proof {
                lemma_find_defer(defers@, key_index, i as int);
            }
            return Some(i);
        }
        i += 1;
    }
    proof {
        lemma_find_defer_none(defers@, key_index);
    }
    None
}

proof fn lemma_find_timeout(s: Seq<(u16, u64)>, k: u16, i: int)
    requires
        0 <= i < s.len(),
        s[i].0 == k,
        forall|j: int| 0 <= j < i ==> s[j].0 != k,
    ensures
        find_timeout(s, k) == Some(i),
    decreases i,
{
    if i > 0 {
        lemma_find_timeout(s.drop_first(), k, i - 1);
    }
}

proof fn lemma_find_timeout_none(s: Seq<(u16, u64)>, k: u16)
    requires
        forall|j: int| 0 <= j < s.len() ==> s[j].0 != k,
    ensures
        find_timeout(s, k) is None,
    decreases s.len(),
{
    if s.len() > 0 {
        lemma_find_timeout_none(s.drop_first(), k);
    }
}

proof fn lemma_find_defer(s: Seq<(u16, u64, bool)>, k: u16, i: int)
    requires
        0 <= i < s.len(),
        s[i].0 == k,
        forall|j: int| 0 <= j < i ==> s[j].0 != k,
    ensures
        find_defer(s, k) == Some(i),
    decreases i,
{
    if i > 0 {
        lemma_find_defer(s.drop_first(), k, i - 1);
    }
}

proof fn lemma_find_defer_none(s: Seq<(u16, u64, bool)>, k: u16)
    requires
        forall|j: int| 0 <= j < s.len() ==> s[j].0 != k,
    ensures
        find_defer(s, k) is None,
    decreases s.len(),
{
    if s.len() > 0 {
        lemma_find_defer_none(s.drop_first(), k);
    }
}

/// With deferred debouncing, a key change is reported only once the switch has kept its state
/// for longer than the debounce duration since its last change: the reading that completes it is
/// no change, and it reports the state that the switch changed to.
pub proof fn law_defer_reports_only_stable_changes(
    states: Seq<Seq<bool>>,
    timeouts: Seq<(u16, u64)>,
    defers: Seq<(u16, u64, bool)>,
    config: MatrixConfig,
    output: int,
    input: int,
    key_index: u16,
    is_active: bool,
    now: u64,
    duration: u64,
)
    requires
        (if is_active {
            config.debounce_key_press
        } else {
            config.debounce_key_release
        }) == (Debounce::Defer { duration }),
        scan_outcome(states, timeouts, defers, config, output, input, key_index, is_active, now).3
            is Some,
    ensures
        is_active == states[output][input],
        find_defer(defers, key_index) matches Some(d) && now - defers[d].1 > duration && (
        scan_outcome(states, timeouts, defers, config, output, input, key_index, is_active, now).3
            == Some(
            if defers[d].2 {
                Message::Press { key_index }
            } else {
                Message::Release { key_index }
            },
        )),
{
}

/// With eager debouncing, a change that comes within the debounce duration after the last
/// recorded one is ignored: nothing is recorded and nothing is reported.
pub proof fn law_eager_ignores_changes_within_duration(
    states: Seq<Seq<bool>>,
    timeouts: Seq<(u16, u64)>,
    defers: Seq<(u16, u64, bool)>,
    config: MatrixConfig,
    output: int,
    input: int,
    key_index: u16,
    is_active: bool,
    now: u64,
    duration: u64,
    t: int,
)
    requires
        (if is_active {
            config.debounce_key_press
        } else {
            config.debounce_key_release
        }) == (Debounce::Eager { duration }),
        is_active != states[output][input],
        find_timeout(timeouts, key_index) == Some(t),
        now - timeouts[t].1 <= duration,
    ensures
        scan_outcome(states, timeouts, defers, config, output, input, key_index, is_active, now)
            == (states, timeouts, defers, None::<Message>),
{
}

/// The state of a key that was last reported: the opposite of the state that its pending change
/// goes to, while there is one, and otherwise the last reading of its switch.
pub open spec fn reported_state(
    states: Seq<Seq<bool>>,
    defers: Seq<(u16, u64, bool)>,
    output: int,
    input: int,
    key_index: u16,
) -> bool {
    match find_defer(defers, key_index) {
        Some(d) => !defers[d].2,
        None => states[output][input],
    }
}

/// Whether a key has at most one pending change.
pub open spec fn at_most_one_defer(defers: Seq<(u16, u64, bool)>, key_index: u16) -> bool {
    forall|a: int, b: int|
        0 <= a < defers.len() && 0 <= b < defers.len() && #[trigger] defers[a].0 == key_index
            && #[trigger] defers[b].0 == key_index ==> a == b
}

/// Whether the pending change of a key, if there is one, goes to the last reading of its switch,
/// and the key has no other.
pub open spec fn pending_matches_reading(
    states: Seq<Seq<bool>>,
    defers: Seq<(u16, u64, bool)>,
    output: int,
    input: int,
    key_index: u16,
) -> bool {
    &&& find_defer(defers, key_index) matches Some(d) ==> defers[d].2 == states[output][input]
    &&& at_most_one_defer(defers, key_index)
}

proof fn lemma_find_defer_result(s: Seq<(u16, u64, bool)>, k: u16)
    ensures
        match find_defer(s, k) {
            Some(i) => 0 <= i < s.len() && s[i].0 == k && forall|j: int| 0 <= j < i ==> s[j].0 != k,
            None => forall|j: int| 0 <= j < s.len() ==> s[j].0 != k,
        },
    decreases s.len(),
{
    if s.len() > 0 {
        lemma_find_defer_result(s.drop_first(), k);
        if s[0].0 != k {
            assert forall|j: int| 0 <= j < s.len() && s[j].0 == k implies j > 0 && s.drop_first()[j - 1].0 == k by {}
        }
    }
}

/// Where a key has at most one pending change, it is found exactly where it is.
proof fn lemma_find_single_defer(s: Seq<(u16, u64, bool)>, k: u16)
    requires
        at_most_one_defer(s, k),
    ensures
        forall|i: int| 0 <= i < s.len() && #[trigger] s[i].0 == k ==> find_defer(s, k) == Some(i),
        (forall|i: int| 0 <= i < s.len() ==> s[i].0 != k) ==> find_defer(s, k) is None,
{
    assert forall|i: int| 0 <= i < s.len() && #[trigger] s[i].0 == k implies find_defer(s, k) == Some(i) by {
        assert forall|j: int| 0 <= j < i implies s[j].0 != k by {
            if s[j].0 == k {
                assert(s[j].0 == k && s[i].0 == k);
            }
        }
        lemma_find_defer(s, k, i);
    }
    if forall|i: int| 0 <= i < s.len() ==> s[i].0 != k {
        lemma_find_defer_none(s, k);
    }
}

/// Scanning a switch keeps every key's pending change, if any, going to its switch's reading, and
/// the messages of a key alternate: a message about the key reports the opposite of the state last
/// reported (a press after a release), and nothing else changes that state. Since a new scan
/// state has every switch inactive and no pending change, a key's first message is a press.
pub proof fn law_key_messages_alternate(
    states: Seq<Seq<bool>>,
    timeouts: Seq<(u16, u64)>,
    defers: Seq<(u16, u64, bool)>,
    config: MatrixConfig,
    output: int,
    input: int,
    key_index: u16,
    scanned_output: int,
    scanned_input: int,
    scanned_key: u16,
    is_active: bool,
    now: u64,
)
    requires
        0 <= output < states.len(),
        0 <= input < states[output].len(),
        0 <= scanned_output < states.len(),
        0 <= scanned_input < states[scanned_output].len(),
        (scanned_key == key_index) <==> (scanned_output == output && scanned_input == input),
        pending_matches_reading(states, defers, output, input, key_index),
    ensures
        ({
            let r = scan_outcome(
                states,
                timeouts,
                defers,
                config,
                scanned_output,
                scanned_input,
                scanned_key,
                is_active,
                now,
            );
            let before = reported_state(states, defers, output, input, key_index);
            let after = reported_state(r.0, r.2, output, input, key_index);
            &&& pending_matches_reading(r.0, r.2, output, input, key_index)
            &&& if scanned_key == key_index && r.3 is Some {
                &&& r.3 == Some(
                    if before {
                        Message::Release { key_index }
                    } else {
                        Message::Press { key_index }
                    },
                )
                &&& after == !before
            } else {
                after == before
            }
        }),
{
    let r = scan_outcome(
        states,
        timeouts,
        defers,
        config,
        scanned_output,
        scanned_input,
        scanned_key,
        is_active,
        now,
    );
    let k = key_index;
    lemma_find_defer_result(defers, k);
    lemma_find_defer_result(defers, scanned_key);
    lemma_find_single_defer(defers, k);
    let defers2 = r.2;
    // The sequences of pending changes that a scan can leave.
    match find_defer(defers, scanned_key) {
        Some(d) => {
            let e = (scanned_key, now, is_active);
            let upd = defers.update(d, e);
            let rem = defers.remove(d);
            assert forall|a: int, b: int|
                0 <= a < upd.len() && 0 <= b < upd.len() && #[trigger] upd[a].0 == k
                    && #[trigger] upd[b].0 == k implies a == b by {
                assert(defers[a].0 == k && defers[b].0 == k);
            }
            assert forall|a: int, b: int|
                0 <= a < rem.len() && 0 <= b < rem.len() && #[trigger] rem[a].0 == k
                    && #[trigger] rem[b].0 == k implies a == b by {
                let a0 = if a < d { a } else { a + 1 };
                let b0 = if b < d { b } else { b + 1 };
                assert(defers[a0].0 == k && defers[b0].0 == k);
            }
            lemma_find_single_defer(upd, k);
            lemma_find_single_defer(rem, k);
            if scanned_key == k {
                assert(forall|i: int| 0 <= i < rem.len() ==> #[trigger] rem[i].0 != k) by {
                    assert forall|i: int| 0 <= i < rem.len() implies #[trigger] rem[i].0 != k by {
                        let i0 = if i < d { i } else { i + 1 };
                        if defers[i0].0 == k {
                            assert(defers[d].0 == k);
                        }
                    }
                }
                assert(upd[d].0 == k);
            } else {
                match find_defer(defers, k) {
                    Some(dk) => {
                        assert(dk != d);
                        assert(upd[dk].0 == k);
                        let ri = if dk < d { dk } else { dk - 1 };
                        assert(rem[ri].0 == k);
                    },
                    None => {
                        assert(forall|i: int| 0 <= i < rem.len() ==> #[trigger] rem[i].0 != k) by {
                            assert forall|i: int| 0 <= i < rem.len() implies #[trigger] rem[i].0 != k by {
                                let i0 = if i < d { i } else { i + 1 };
                                assert(defers[i0].0 != k);
                            }
                        }
                        assert(forall|i: int| 0 <= i < upd.len() ==> #[trigger] upd[i].0 != k) by {
                            assert forall|i: int| 0 <= i < upd.len() implies #[trigger] upd[i].0 != k by {
                                assert(defers[i].0 != k);
                            }
                        }
                    },
                }
            }
        },
        None => {
            let pushed = defers.push((scanned_key, now, is_active));
            assert forall|a: int, b: int|
                0 <= a < pushed.len() && 0 <= b < pushed.len() && #[trigger] pushed[a].0 == k
                    && #[trigger] pushed[b].0 == k implies a == b by {
                if a < defers.len() && b < defers.len() {
                    assert(defers[a].0 == k && defers[b].0 == k);
                } else if a < defers.len() {
                    assert(defers[a].0 == scanned_key);
                } else if b < defers.len() {
                    assert(defers[b].0 == scanned_key);
                }
            }
            lemma_find_single_defer(pushed, k);
            if scanned_key == k {
                assert(pushed[defers.len() as int].0 == k);
            } else {
                match find_defer(defers, k) {
                    Some(dk) => {
                        assert(pushed[dk].0 == k);
                    },
                    None => {
                        assert(forall|i: int| 0 <= i < pushed.len() ==> #[trigger] pushed[i].0 != k) by {
                            assert forall|i: int| 0 <= i < pushed.len() implies #[trigger] pushed[i].0 != k by {
                                if i < defers.len() {
                                    assert(defers[i].0 != k);
                                }
                            }
                        }
                    },
                }
            }
        },
    }
}

} // verus!
