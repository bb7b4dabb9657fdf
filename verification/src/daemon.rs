use vstd::prelude::*;
use std::time::Instant;
use crate::config::AppConfig;

verus! {

/// The standard library's monotonic clock reading; Verus sees nothing inside it.
#[verifier::external_type_specification]
#[verifier::external_body]
pub struct ExInstant(Instant);

/// The keys the switcher tells apart.
#[derive(Debug, Clone, Copy, PartialEq, Eq, Structural)]
pub enum KeyCode {
    LeftCtrl,
    RightCtrl,
    Other,
}

/// What happened to a key.
#[derive(Debug, Clone, Copy, PartialEq, Eq, Structural)]
pub enum Action {
    Press,
    Release,
    Repeat,
}

/// A key event read from an input device.
#[derive(Debug, Clone, Copy)]
pub struct Event {
    pub key: KeyCode,
    pub action: Action,
}

/// What the tap detector remembers between events: when each Control key
/// went down (in nanoseconds on the detector's clock), if it is down, and for
/// each whether an event of another key came since it last went down.
pub struct TapState {
    pub left_press: Option<u128>,
    pub right_press: Option<u128>,
    pub left_interrupted: bool,
    pub right_interrupted: bool,
}

/// Whether a key held from `press` to `now` was held for less than
/// `sensitivity_ms` milliseconds (a clock that ran backwards counts as no time).
pub open spec fn quick_enough(press: u128, now: u128, sensitivity_ms: u64) -> bool {
    (if now >= press {
        now - press
    } else {
        0
    }) < sensitivity_ms * 1_000_000
}

/// What the release of `key` reports, given when it went down and whether an
/// event of another key came since.
pub open spec fn release_outcome(
    press: Option<u128>,
    interrupted: bool,
    now: u128,
    sensitivity_ms: u64,
    key: KeyCode,
) -> Option<KeyCode> {
    match press {
        Some(p) => if !interrupted && quick_enough(p, now, sensitivity_ms) {
            Some(key)
        } else {
            None
        },
        None => None,
    }
}

/// How one event changes what is remembered of the Control key `c` (its
/// press and its interruption), and what it reports for `c`: a press of `c`
/// starts a fresh tap, a release of `c` ends it, a repeat of `c` changes
/// nothing, and any event of another key interrupts it.
pub open spec fn slot_step(
    press: Option<u128>,
    interrupted: bool,
    c: KeyCode,
    key: KeyCode,
    action: Action,
    sensitivity_ms: u64,
    now: u128,
) -> (Option<u128>, bool, Option<KeyCode>) {
    if key == c {
        match action {
            Action::Press => (Some(now), false, None),
            Action::Release => (
                None,
                interrupted,
                release_outcome(press, interrupted, now, sensitivity_ms, c),
            ),
            Action::Repeat => (press, interrupted, None),
        }
    } else {
        (press, true, None)
    }
}

/// One event handled at time `now`: the detector's next state and the
/// Control key whose tap it completes, if any.
pub open spec fn tap_step(
    s: TapState,
    key: KeyCode,
    action: Action,
    sensitivity_ms: u64,
    now: u128,
) -> (TapState, Option<KeyCode>) {
    let l = slot_step(
        s.left_press,
        s.left_interrupted,
        KeyCode::LeftCtrl,
        key,
        action,
        sensitivity_ms,
        now,
    );
    let r = slot_step(
        s.right_press,
        s.right_interrupted,
        KeyCode::RightCtrl,
        key,
        action,
        sensitivity_ms,
        now,
    );
    (
        TapState {
            left_press: l.0,
            right_press: r.0,
            left_interrupted: l.1,
            right_interrupted: r.1,
        },
        match key {
            KeyCode::LeftCtrl => l.2,
            KeyCode::RightCtrl => r.2,
            KeyCode::Other => None,
        },
    )
}

/// The detector's state after the timed events `evs`, handled in order.
pub open spec fn run_events(s: TapState, evs: Seq<(Event, u128)>, sensitivity_ms: u64) -> TapState
    decreases evs.len(),
{
    if evs.len() == 0 {
        s
    } else {
        run_events(
            tap_step(s, evs[0].0.key, evs[0].0.action, sensitivity_ms, evs[0].1).0,
            evs.drop_first(),
            sensitivity_ms,
        )
    }
}

/// When the Control key `k` went down, as the state remembers it.
pub open spec fn press_of(s: TapState, k: KeyCode) -> Option<u128> {
    if k == KeyCode::LeftCtrl {
        s.left_press
    } else {
        s.right_press
    }
}

/// Whether an event of another key came since the Control key `k` went down.
pub open spec fn interrupted_of(s: TapState, k: KeyCode) -> bool {
    if k == KeyCode::LeftCtrl {
        s.left_interrupted
    } else {
        s.right_interrupted
    }
}

/// Whether `e` presses or releases the key `k`.
pub open spec fn presses_or_releases(e: Event, k: KeyCode) -> bool {
    e.key == k && (e.action == Action::Press || e.action == Action::Release)
}

/// Events that leave the press of `k` standing: `k` is neither pressed again
/// nor released among them.
pub open spec fn keeps_press_of(evs: Seq<(Event, u128)>, k: KeyCode) -> bool {
    forall|i: int| 0 <= i < evs.len() ==> !presses_or_releases(#[trigger] evs[i].0, k)
}

/// Whether an event of a key other than `k` (a press, a release or a
/// repeat) comes among `evs`.
pub open spec fn has_other_key_event(evs: Seq<(Event, u128)>, k: KeyCode) -> bool {
    exists|i: int| 0 <= i < evs.len() && (#[trigger] evs[i].0).key != k
}

/// Events that keep the press of `k` standing leave it as it was, and mark
/// its tap as interrupted exactly when an event of another key comes among
/// them.
proof fn lemma_run_keeps_press(s: TapState, evs: Seq<(Event, u128)>, k: KeyCode, sensitivity_ms: u64)
    requires
        k != KeyCode::Other,
        keeps_press_of(evs, k),
    ensures
        press_of(run_events(s, evs, sensitivity_ms), k) == press_of(s, k),
        interrupted_of(run_events(s, evs, sensitivity_ms), k) == (interrupted_of(s, k)
            || has_other_key_event(evs, k)),
    decreases evs.len(),
{
    if evs.len() > 0 {
        let e = evs[0].0;
        let next = tap_step(s, e.key, e.action, sensitivity_ms, evs[0].1).0;
        let rest = evs.drop_first();
        assert(!presses_or_releases(evs[0].0, k));
        assert forall|i: int| 0 <= i < rest.len() implies !presses_or_releases(
            #[trigger] rest[i].0,
            k,
        ) by {
            assert(rest[i] == evs[i + 1]);
        }
        lemma_run_keeps_press(next, rest, k, sensitivity_ms);
        if has_other_key_event(evs, k) {
            let i = choose|i: int| 0 <= i < evs.len() && (#[trigger] evs[i].0).key != k;
            if i > 0 {
                assert(rest[i - 1] == evs[i]);
            }
        }
        if has_other_key_event(rest, k) {
            let i = choose|i: int| 0 <= i < rest.len() && (#[trigger] rest[i].0).key != k;
            assert(rest[i] == evs[i + 1]);
        }
    }
}

/// A tap: Control key `k` goes down at `pressed`; nothing but repeats of `k`
/// follows; `k` comes up at `released`, less than the sensitivity later. The
/// release reports `k`.
pub proof fn lemma_quick_tap_switches(
    s: TapState,
    k: KeyCode,
    pressed: u128,
    between: Seq<(Event, u128)>,
    released: u128,
    sensitivity_ms: u64,
)
    requires
        k != KeyCode::Other,
        keeps_press_of(between, k),
        !has_other_key_event(between, k),
        pressed <= released,
        released - pressed < sensitivity_ms * 1_000_000,
    ensures
        tap_step(
            run_events(tap_step(s, k, Action::Press, sensitivity_ms, pressed).0, between, sensitivity_ms),
            k,
            Action::Release,
            sensitivity_ms,
            released,
        ).1 == Some(k),
{
    lemma_run_keeps_press(tap_step(s, k, Action::Press, sensitivity_ms, pressed).0, between, k, sensitivity_ms);
}

/// A shortcut: Control key `k` goes down, an event of another key comes
/// while it is held (whatever else happens, as long as `k` is not pressed
/// again or released), then `k` comes up. The release reports nothing,
/// however quick; this holds whatever the other key is, the other Control
/// key included.
pub proof fn lemma_shortcut_never_switches(
    s: TapState,
    k: KeyCode,
    pressed: u128,
    between: Seq<(Event, u128)>,
    released: u128,
    sensitivity_ms: u64,
)
    requires
        k != KeyCode::Other,
        keeps_press_of(between, k),
        has_other_key_event(between, k),
    ensures
        tap_step(
            run_events(tap_step(s, k, Action::Press, sensitivity_ms, pressed).0, between, sensitivity_ms),
            k,
            Action::Release,
            sensitivity_ms,
            released,
        ).1 is None,
{
    lemma_run_keeps_press(tap_step(s, k, Action::Press, sensitivity_ms, pressed).0, between, k, sensitivity_ms);
}

/// A hold: Control key `k` goes down at `pressed` and comes up at `released`,
/// at least the sensitivity later, without being pressed again or released in
/// between (whatever other events come). The release reports nothing.
pub proof fn lemma_long_hold_never_switches(
    s: TapState,
    k: KeyCode,
    pressed: u128,
    between: Seq<(Event, u128)>,
    released: u128,
    sensitivity_ms: u64,
)
    requires
        k != KeyCode::Other,
        keeps_press_of(between, k),
        pressed <= released,
        released - pressed >= sensitivity_ms * 1_000_000,
    ensures
        tap_step(
            run_events(tap_step(s, k, Action::Press, sensitivity_ms, pressed).0, between, sensitivity_ms),
            k,
            Action::Release,
            sensitivity_ms,
            released,
        ).1 is None,
{
    lemma_run_keeps_press(tap_step(s, k, Action::Press, sensitivity_ms, pressed).0, between, k, sensitivity_ms);
}

/// Only the release of a Control key that is down can report a tap, and it
/// reports that key; a release clears the key's press.
pub proof fn lemma_only_release_of_a_pressed_ctrl_reports(
    s: TapState,
    key: KeyCode,
    action: Action,
    sensitivity_ms: u64,
    now: u128,
)
    ensures
        tap_step(s, key, action, sensitivity_ms, now).1 matches Some(k) ==> {
            &&& action == Action::Release
            &&& k == key
            &&& key != KeyCode::Other
            &&& press_of(s, key) is Some
        },
        action == Action::Release && key != KeyCode::Other ==> press_of(
            tap_step(s, key, action, sensitivity_ms, now).0,
            key,
        ) is None,
{
}

/// An event of any key other than the Control key `c` interrupts `c`'s tap
/// and leaves its press as it was; a repeat of `c` itself changes nothing of
/// `c`'s tap and reports nothing.
pub proof fn lemma_other_key_events_interrupt(
    s: TapState,
    c: KeyCode,
    key: KeyCode,
    action: Action,
    sensitivity_ms: u64,
    now: u128,
)
    requires
        c != KeyCode::Other,
    ensures
        key != c ==> {
            &&& press_of(tap_step(s, key, action, sensitivity_ms, now).0, c) == press_of(s, c)
            &&& interrupted_of(tap_step(s, key, action, sensitivity_ms, now).0, c)
            &&& tap_step(s, key, action, sensitivity_ms, now).1 != Some(c)
        },
        key == c && action == Action::Repeat ==> {
            &&& press_of(tap_step(s, key, action, sensitivity_ms, now).0, c) == press_of(s, c)
            &&& interrupted_of(tap_step(s, key, action, sensitivity_ms, now).0, c)
                == interrupted_of(s, c)
            &&& tap_step(s, key, action, sensitivity_ms, now).1 is None
        },
{
}

/// Recognises a lone, short tap of a Control key.
pub struct TapDetector {
    clock: Instant,
    left_press: Option<u128>,
    right_press: Option<u128>,
    left_interrupted: bool,
    right_interrupted: bool,
}

impl View for TapDetector {
    type V = TapState;

    closed spec fn view(&self) -> TapState {
        TapState {
            left_press: self.left_press,
            right_press: self.right_press,
            left_interrupted: self.left_interrupted,
            right_interrupted: self.right_interrupted,
        }
    }
}

/// Reads the monotonic clock (`Instant::now`). Nothing is stated of the
/// reading: it depends on the time.
#[verifier::external_body]
fn clock_start() -> Instant {
    Instant::now()
}

/// The nanoseconds gone by since `origin` (`Instant::elapsed`, read as
/// `Duration::as_nanos`). Nothing is stated of the value: it depends on the time.
#[verifier::external_body]
fn clock_nanos_since(origin: &Instant) -> u128 {
    origin.elapsed().as_nanos()
}

/// What the release of `key` reports, given when it went down and whether it
/// was interrupted.
fn release_result(
    press: Option<u128>,
    interrupted: bool,
    now: u128,
    sensitivity_ms: u64,
    key: KeyCode,
) -> (r: Option<KeyCode>)
    ensures
        r == release_outcome(press, interrupted, now, sensitivity_ms, key),
{
    let limit: u128 = sensitivity_ms as u128 * 1_000_000;
    match press {
        Some(press_time) => {
            let held: u128 = if now >= press_time {
                now - press_time
            } else {
                0
            };
            if !interrupted && held < limit {
                Some(key)
            } else {
                None
            }
        },
        None => None,
    }
}

impl TapDetector {
    /// A detector with no Control key down and no interruption.
    pub fn new() -> (d: Self)
        ensures
            d@ == (TapState {
                left_press: None,
                right_press: None,
                left_interrupted: false,
                right_interrupted: false,
            }),
    {
        TapDetector {
            clock: clock_start(),
            left_press: None,
            right_press: None,
            left_interrupted: false,
            right_interrupted: false,
        }
    }

    /// Handles one event at time `now` (nanoseconds on the detector's clock)
    /// and returns the Control key whose tap the event completes, if any.
    pub fn handle_event_at(
        &mut self,
        key: KeyCode,
        action: Action,
        sensitivity_ms: u64,
        now: u128,
    ) -> (r: Option<KeyCode>)
        ensures
            (final(self)@, r) == tap_step(old(self)@, key, action, sensitivity_ms, now),
    {
        let mut result: Option<KeyCode> = None;
        match key {
            KeyCode::LeftCtrl => {
                match action {
                    Action::Press => {
                        self.left_press = Some(now);
                        self.left_interrupted = false;
                    },
                    Action::Release => {
                        result = release_result(
                            self.left_press,
                            self.left_interrupted,
                            now,
                            sensitivity_ms,
                            KeyCode::LeftCtrl,
                        );
                        self.left_press = None;
                    },
                    Action::Repeat => {},
                }
                self.right_interrupted = true;
            },
            KeyCode::RightCtrl => {
                match action {
                    Action::Press => {
                        self.right_press = Some(now);
                        self.right_interrupted = false;
                    },
                    Action::Release => {
                        result = release_result(
                            self.right_press,
                            self.right_interrupted,
                            now,
                            sensitivity_ms,
                            KeyCode::RightCtrl,
                        );
                        self.right_press = None;
                    },
                    Action::Repeat => {},
                }
                self.left_interrupted = true;
            },
            KeyCode::Other => {
                self.left_interrupted = true;
                self.right_interrupted = true;
            },
        }
        result
    }

    /// Handles one event at the present time and returns the Control key
    /// whose tap the event completes, if any.
    pub fn handle_event(&mut self, key: KeyCode, action: Action, sensitivity_ms: u64) -> (r: Option<
        KeyCode,
    >)
        ensures
            exists|now: u128|
                (final(self)@, r) == tap_step(old(self)@, key, action, sensitivity_ms, now),
            r matches Some(k) ==> action == Action::Release && k == key && key != KeyCode::Other,
    {
        let now = clock_nanos_since(&self.clock);
        self.handle_event_at(key, action, sensitivity_ms, now)
    }
}

} // verus!

verus! {

/// Where `x` first occurs in `s`, if anywhere.
pub open spec fn first_position(s: Seq<u32>, x: u32) -> Option<int>
    decreases s.len(),
{
    if s.len() == 0 {
        None
    } else if s[0] == x {
        Some(0)
    } else {
        match first_position(s.drop_first(), x) {
            Some(i) => Some(i + 1),
            None => None,
        }
    }
}

/// The layout that follows `current` in the Right Control cycle `list`: the
/// entry after the first occurrence of `current`, wrapping round at the end,
/// or the first entry where `current` is not in the list.
pub open spec fn next_in_cycle(list: Seq<u32>, current: u32) -> u32
    recommends
        list.len() > 0,
{
    match first_position(list, current) {
        Some(p) => list[(p + 1) % (list.len() as int)],
        None => list[0],
    }
}

/// The layout that a tap of `key` switches to, if any, when `available`
/// layouts are installed and layout `current` is active.
pub open spec fn switch_target(
    key: KeyCode,
    left_ctrl_layout: u32,
    right_ctrl_layouts: Seq<u32>,
    available: usize,
    current: u32,
) -> Option<u32> {
    if available == 0 {
        None
    } else {
        match key {
            KeyCode::LeftCtrl => if left_ctrl_layout < (available as u32) {
                Some(left_ctrl_layout)
            } else {
                None
            },
            KeyCode::RightCtrl => if right_ctrl_layouts.len() == 0 {
                None
            } else {
                let next = next_in_cycle(right_ctrl_layouts, current);
                if next < (available as u32) {
                    Some(next)
                } else {
                    None
                }
            },
            KeyCode::Other => None,
        }
    }
}

/// The first occurrence found by a scan from the front is `first_position`.
proof fn lemma_first_position(s: Seq<u32>, x: u32, i: int)
    requires
        0 <= i <= s.len(),
        forall|j: int| 0 <= j < i ==> s[j] != x,
        i == s.len() || s[i] == x,
    ensures
        first_position(s, x) == (if i == s.len() {
            None
        } else {
            Some(i)
        }),
    decreases s.len(),
{
    if s.len() > 0 && i > 0 {
        let rest = s.drop_first();
        assert forall|j: int| 0 <= j < i - 1 implies rest[j] != x by {
            assert(rest[j] == s[j + 1]);
        }
        lemma_first_position(rest, x, i - 1);
    }
}

/// The layout to switch to after a tap of `key`, given the settings, the
/// number of installed layouts and the active layout; `None` where no switch
/// is made.
pub fn handle_layout_switch(key: KeyCode, config: &AppConfig, available: usize, current: u32) -> (r:
    Option<u32>)
    ensures
        r == switch_target(
            key,
            config.left_ctrl_layout,
            config.right_ctrl_layouts@,
            available,
            current,
        ),
{
    if available == 0 {
        return None;
    }
    match key {
        KeyCode::LeftCtrl => {
            let target = config.left_ctrl_layout;
            if target < #[verifier::truncate] (available as u32) {
                Some(target)
            } else {
                None
            }
        },
        KeyCode::RightCtrl => {
            let list = &config.right_ctrl_layouts;
            let n = list.len();
            if n == 0 {
                return None;
            }
            let mut i: usize = 0;
            while i < n
                invariant
                    n == list@.len(),
                    i <= n,
                    forall|j: int| 0 <= j < i ==> list@[j] != current,
                ensures
                    i <= n,
                    forall|j: int| 0 <= j < i ==> list@[j] != current,
                    i == n || list@[i as int] == current,
                decreases n - i,
            {
                if list[i] == current {
                    break;
                }
                i = i + 1;
            }
            proof {
                lemma_first_position(list@, current, i as int);
            }
            let next_index = if i < n {
                list[(i + 1) % n]
            } else {
                list[0]
            };
            if next_index < #[verifier::truncate] (available as u32) {
                Some(next_index)
            } else {
                None
            }
        },
        KeyCode::Other => None,
    }
}

/// The layout reached from `current` after `k` taps of Right Control.
pub open spec fn cycle_after(list: Seq<u32>, current: u32, k: nat) -> u32
    decreases k,
{
    if k == 0 {
        current
    } else {
        next_in_cycle(list, cycle_after(list, current, (k - 1) as nat))
    }
}

/// In a cycle list without repeats, the layout after entry `i` is entry
/// `i + 1`, and after the last entry comes the first.
pub proof fn lemma_cycle_steps_to_following_entry(list: Seq<u32>, i: int)
    requires
        list.no_duplicates(),
        0 <= i < list.len(),
    ensures
        next_in_cycle(list, list[i]) == list[(i + 1) % (list.len() as int)],
{
    lemma_first_position(list, list[i], i);
}

/// A layout that is not in the cycle list is followed by the list's first entry.
pub proof fn lemma_cycle_starts_from_first_entry(list: Seq<u32>, current: u32)
    requires
        list.len() > 0,
        !list.contains(current),
    ensures
        next_in_cycle(list, current) == list[0],
{
    lemma_first_position(list, current, list.len() as int);
}

/// In a cycle list without repeats, `k` taps of Right Control from entry `i`
/// reach entry `(i + k) % n`.
pub proof fn lemma_cycle_after_taps(list: Seq<u32>, i: int, k: nat)
    requires
        list.no_duplicates(),
        0 <= i < list.len(),
    ensures
        cycle_after(list, list[i], k) == list[(i + k) % (list.len() as int)],
    decreases k,
{
    let n = list.len() as int;
    if k == 0 {
        vstd::arithmetic::div_mod::lemma_small_mod(i as nat, n as nat);
    } else {
        lemma_cycle_after_taps(list, i, (k - 1) as nat);
        let p = (i + k - 1) % n;
        assert(0 <= p < n) by {
            vstd::arithmetic::div_mod::lemma_mod_bound(i + k - 1, n);
        }
        lemma_cycle_steps_to_following_entry(list, p);
        assert((1 + p) % n == (1 + (i + k - 1)) % n) by {
            vstd::arithmetic::div_mod::lemma_add_mod_noop_right(1, i + k - 1, n);
        }
        assert(p + 1 == 1 + p);
    }
}

/// In a cycle list without repeats, as many taps of Right Control as the
/// list has entries bring the cycle back to the entry it started from.
pub proof fn lemma_cycle_returns_after_full_round(list: Seq<u32>, i: int)
    requires
        list.no_duplicates(),
        0 <= i < list.len(),
    ensures
        cycle_after(list, list[i], list.len()) == list[i],
{
    let n = list.len() as int;
    lemma_cycle_after_taps(list, i, list.len());
    assert((i + n) % n == i) by {
        vstd::arithmetic::div_mod::lemma_mod_add_multiples_vanish(i, n);
        vstd::arithmetic::div_mod::lemma_small_mod(i as nat, n as nat);
    }
}

/// Taps of Right Control walk the cycle list in order, wrapping round, when
/// the list has no repeats and names installed layouts only.
pub proof fn lemma_right_taps_walk_the_cycle(
    left_ctrl_layout: u32,
    list: Seq<u32>,
    available: usize,
    i: int,
)
    requires
        list.no_duplicates(),
        0 <= i < list.len(),
        available > 0,
        forall|j: int| 0 <= j < list.len() ==> list[j] < (available as u32),
    ensures
        switch_target(KeyCode::RightCtrl, left_ctrl_layout, list, available, list[i]) == Some(
            list[(i + 1) % (list.len() as int)],
        ),
{
    lemma_cycle_steps_to_following_entry(list, i);
    let n = list.len() as int;
    assert(0 <= (i + 1) % n < n) by {
        vstd::arithmetic::div_mod::lemma_mod_bound(i + 1, n);
    }
}


/// When a file was last modified, read exactly: whether the time lies after
/// the Unix epoch, and the distance from it in seconds and nanoseconds.
#[derive(Debug, Clone, Copy, PartialEq, Eq, Structural)]
pub struct FileStamp {
    pub after_epoch: bool,
    pub secs: u64,
    pub nanos: u32,
}

/// Whether the configuration file, last modified at `modified`, has to be
/// read again, given the modification time `last` seen when it was last read.
pub fn config_reload_needed(modified: FileStamp, last: Option<FileStamp>) -> (r: bool)
    ensures
        r == (last != Some(modified)),
{
    match last {
        Some(seen) => !(seen.after_epoch == modified.after_epoch && seen.secs == modified.secs
            && seen.nanos == modified.nanos),
        None => true,
    }
}


/// A tap of a Control key switches layouts: a tap of Left Control (pressed
/// and released within the sensitivity, no other key's event in between) reports
/// Left Control, which selects the configured layout where it is installed;
/// a tap of Right Control reports Right Control, which selects the layout
/// after the active one in the cycle.
pub proof fn lemma_tap_switches_layout(
    s: TapState,
    k: KeyCode,
    pressed: u128,
    between: Seq<(Event, u128)>,
    released: u128,
    sensitivity_ms: u64,
    left_ctrl_layout: u32,
    right_ctrl_layouts: Seq<u32>,
    available: usize,
    current: u32,
)
    requires
        k != KeyCode::Other,
        keeps_press_of(between, k),
        !has_other_key_event(between, k),
        pressed <= released,
        released - pressed < sensitivity_ms * 1_000_000,
        available > 0,
        k == KeyCode::LeftCtrl ==> left_ctrl_layout < (available as u32),
        k == KeyCode::RightCtrl ==> right_ctrl_layouts.len() > 0 && next_in_cycle(
            right_ctrl_layouts,
            current,
        ) < (available as u32),
    ensures
        ({
            let reported = tap_step(
                run_events(
                    tap_step(s, k, Action::Press, sensitivity_ms, pressed).0,
                    between,
                    sensitivity_ms,
                ),
                k,
                Action::Release,
                sensitivity_ms,
                released,
            ).1;
            &&& reported == Some(k)
            &&& switch_target(k, left_ctrl_layout, right_ctrl_layouts, available, current) == (if k
                == KeyCode::LeftCtrl {
                Some(left_ctrl_layout)
            } else {
                Some(next_in_cycle(right_ctrl_layouts, current))
            })
        }),
{
    lemma_quick_tap_switches(s, k, pressed, between, released, sensitivity_ms);
}


/// The layout names among the input sources read from GNOME's settings: the
/// name of each source whose type and name are both strings, in order.
pub open spec fn named_layouts(sources: Seq<(Option<String>, Option<String>)>) -> Seq<Seq<char>>
    decreases sources.len(),
{
    if sources.len() == 0 {
        Seq::empty()
    } else {
        let rest = named_layouts(sources.drop_last());
        match sources.last() {
            (Some(_), Some(name)) => rest.push(name@),
            _ => rest,
        }
    }
}

/// The installed layouts are exactly the names of the sources whose type and
/// name are both strings, one for each such source, in the order of the
/// sources: no such source is dropped and nothing else is added.
pub proof fn lemma_named_layouts_keeps_every_named_source(
    sources: Seq<(Option<String>, Option<String>)>,
)
    ensures
        named_layouts(sources) == sources.filter(
            |p: (Option<String>, Option<String>)| p.0 is Some && p.1 is Some,
        ).map_values(|p: (Option<String>, Option<String>)| p.1.unwrap()@),
    decreases sources.len(),
{
    reveal_with_fuel(Seq::<_>::filter, 1);
    let pred = |p: (Option<String>, Option<String>)| p.0 is Some && p.1 is Some;
    let name = |p: (Option<String>, Option<String>)| p.1.unwrap()@;
    if sources.len() > 0 {
        let init = sources.drop_last();
        lemma_named_layouts_keeps_every_named_source(init);
        let f = init.filter(pred);
        if pred(sources.last()) {
            assert(f.push(sources.last()).map_values(name) =~= f.map_values(name).push(
                name(sources.last()),
            ));
        }
    } else {
        assert(sources.filter(pred).map_values(name) =~= Seq::<Seq<char>>::empty());
    }
}

/// The installed layouts, from the (type, name) pairs of GNOME's
/// `org.gnome.desktop.input-sources` `sources` setting, each part present
/// where it is a string.
pub fn available_layouts(sources: &Vec<(Option<String>, Option<String>)>) -> (names: Vec<String>)
    ensures
        names@.map_values(|n: String| n@) == named_layouts(sources@),
        names@.map_values(|n: String| n@) == sources@.filter(
            |p: (Option<String>, Option<String>)| p.0 is Some && p.1 is Some,
        ).map_values(|p: (Option<String>, Option<String>)| p.1.unwrap()@),
{
    proof {
        lemma_named_layouts_keeps_every_named_source(sources@);
    }
    let mut names: Vec<String> = Vec::new();
    let n = sources.len();
    let mut i: usize = 0;
    while i < n
        invariant
            n == sources@.len(),
            i <= n,
            names@.map_values(|m: String| m@) == named_layouts(sources@.take(i as int)),
        decreases n - i,
    {
        let ghost before = names@.map_values(|m: String| m@);
        assert(sources@.take(i + 1).drop_last() =~= sources@.take(i as int));
        assert(sources@.take(i + 1).last() == sources@[i as int]);
        match &sources[i] {
            (Some(_), Some(name)) => {
                names.push(name.clone());
                assert(names@.map_values(|m: String| m@) =~= before.push(name@));
            },
            _ => {},
        }
        i = i + 1;
    }
    assert(sources@.take(n as int) =~= sources@);
    names
}

} // verus!
