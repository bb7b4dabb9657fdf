use vstd::prelude::*;
use vstd::string::*;
use crate::daemon::{Action, Event, KeyCode};
use crate::config::lemma_filter_keeps_no_duplicates;
use crate::text::{has_prefix, same_text, starts_with};

verus! {

/// The event type of key events, `evdev::EventType::KEY` (its number is 1
/// in evdev's source, as in the kernel's input-event-codes.h).
#[verifier::external_body]
fn key_event_type() -> (t: u16)
    ensures
        t == 1,
{
    evdev::EventType::KEY.0
}

/// The scan code of the left Control key, `evdev::Key::KEY_LEFTCTRL` (29 in
/// evdev's source).
#[verifier::external_body]
fn left_ctrl_code() -> (c: u16)
    ensures
        c == 29,
{
    evdev::Key::KEY_LEFTCTRL.code()
}

/// The scan code of the right Control key, `evdev::Key::KEY_RIGHTCTRL` (97
/// in evdev's source).
#[verifier::external_body]
fn right_ctrl_code() -> (c: u16)
    ensures
        c == 97,
{
    evdev::Key::KEY_RIGHTCTRL.code()
}

/// The key that a scan code stands for.
pub open spec fn key_of_code(code: u16) -> KeyCode {
    if code == 29 {
        KeyCode::LeftCtrl
    } else if code == 97 {
        KeyCode::RightCtrl
    } else {
        KeyCode::Other
    }
}

/// The action that a key event's value stands for: 1 a press, 0 a release,
/// 2 a repeat; other values stand for none.
pub open spec fn action_of_value(value: i32) -> Option<Action> {
    if value == 1 {
        Some(Action::Press)
    } else if value == 0 {
        Some(Action::Release)
    } else if value == 2 {
        Some(Action::Repeat)
    } else {
        None
    }
}

/// The key event that a raw input event stands for, if any: only key events
/// with a known value count.
pub open spec fn event_of(event_type: u16, code: u16, value: i32) -> Option<Event> {
    if event_type != 1 {
        None
    } else {
        match action_of_value(value) {
            Some(a) => Some(Event { key: key_of_code(code), action: a }),
            None => None,
        }
    }
}

/// A key event's action is read from its value alone, whatever key it is
/// for: 1 is a press, 0 a release, 2 a repeat (an autorepeat of a held
/// key, also of a Control key, stays a repeat); the key is read from the
/// code alone.
pub proof fn lemma_action_follows_value_alone(code: u16, other_code: u16, value: i32)
    ensures
        event_of(1, code, value) is Some <==> (value == 0 || value == 1 || value == 2),
        value == 1 ==> event_of(1, code, value).unwrap().action == Action::Press,
        value == 0 ==> event_of(1, code, value).unwrap().action == Action::Release,
        value == 2 ==> event_of(1, code, value).unwrap().action == Action::Repeat,
        event_of(1, code, value) is Some ==> event_of(1, code, value).unwrap().action == event_of(
            1,
            other_code,
            value,
        ).unwrap().action,
        event_of(1, code, value) is Some ==> {
            &&& (event_of(1, code, value).unwrap().key == KeyCode::LeftCtrl <==> code == 29)
            &&& (event_of(1, code, value).unwrap().key == KeyCode::RightCtrl <==> code == 97)
        },
{
}

/// Reads a raw input event (its type, code and value) as a key event;
/// `None` for events the switcher ignores.
pub fn translate_event(event_type: u16, code: u16, value: i32) -> (r: Option<Event>)
    ensures
        r == event_of(event_type, code, value),
        event_type != 1 ==> r is None,
        event_type == 1 && value != 0 && value != 1 && value != 2 ==> r is None,
        event_type == 1 && (value == 0 || value == 1 || value == 2) ==> r is Some,
        r matches Some(e) ==> {
            &&& value == 1 ==> e.action == Action::Press
            &&& value == 0 ==> e.action == Action::Release
            &&& value == 2 ==> e.action == Action::Repeat
            &&& code == 29 ==> e.key == KeyCode::LeftCtrl
            &&& code == 97 ==> e.key == KeyCode::RightCtrl
            &&& code != 29 && code != 97 ==> e.key == KeyCode::Other
        },
{
    if event_type != key_event_type() {
        return None;
    }
    let key = if code == left_ctrl_code() {
        KeyCode::LeftCtrl
    } else if code == right_ctrl_code() {
        KeyCode::RightCtrl
    } else {
        KeyCode::Other
    };
    let action = if value == 1 {
        Action::Press
    } else if value == 0 {
        Action::Release
    } else if value == 2 {
        Action::Repeat
    } else {
        return None;
    };
    Some(Event { key, action })
}

/// Whether a file under `/dev/input` is an event device, by its name.
pub fn is_event_device_name(name: &str) -> (r: bool)
    ensures
        r == has_prefix(name@, "event"@),
{
    starts_with(name, "event")
}

/// `s` with every occurrence of `x` taken out, the rest in order.
pub open spec fn without_path(s: Seq<Seq<char>>, x: Seq<char>) -> Seq<Seq<char>> {
    s.filter(other_than(x))
}

/// The test that keeps every path other than `x`.
pub open spec fn other_than(x: Seq<char>) -> spec_fn(Seq<char>) -> bool {
    |y: Seq<char>| y != x
}

/// The input devices that a reader is attached to, each once.
pub struct ActiveDevices {
    paths: Vec<String>,
}

impl ActiveDevices {
    /// The paths of the devices, in the order they were attached.
    pub closed spec fn view(&self) -> Seq<Seq<char>> {
        self.paths@.map_values(|p: String| p@)
    }

    #[verifier::type_invariant]
    closed spec fn each_once(&self) -> bool {
        self@.no_duplicates()
    }

    /// No device attached.
    pub fn new() -> (d: Self)
        ensures
            d@ == Seq::<Seq<char>>::empty(),
    {
        let d = ActiveDevices { paths: Vec::new() };
        assert(d@ =~= Seq::<Seq<char>>::empty());
        d
    }

    /// How many devices are attached.
    pub fn len(&self) -> (n: usize)
        ensures
            n == self@.len(),
    {
        self.paths.len()
    }

    /// The path of the `i`-th device attached.
    pub fn path(&self, i: usize) -> (p: &str)
        requires
            i < self@.len(),
        ensures
            p@ == self@[i as int],
    {
        self.paths[i].as_str()
    }

    /// Whether a reader is attached to the device at `path`.
    pub fn contains(&self, path: &str) -> (r: bool)
        ensures
            r == self@.contains(path@),
    {
        let n = self.paths.len();
        let mut i: usize = 0;
        while i < n
            invariant
                n == self@.len(),
                i <= n,
                forall|j: int| 0 <= j < i ==> self@[j] != path@,
            decreases n - i,
        {
            assert(self@[i as int] == self.paths@[i as int]@);
            if same_text(self.paths[i].as_str(), path) {
                return true;
            }
            i = i + 1;
        }
        false
    }

    /// Records that a reader is attached to the device at `path`; `false`,
    /// with nothing changed, where one already is.
    pub fn insert(&mut self, path: String) -> (added: bool)
        ensures
            added == !old(self)@.contains(path@),
            final(self)@ == (if added {
                old(self)@.push(path@)
            } else {
                old(self)@
            }),
    {
        if self.contains(path.as_str()) {
            return false;
        }
        let ghost before = self@;
        let ghost p = path@;
        proof {
            use_type_invariant(&*self);
        }
        let mut paths: Vec<String> = Vec::new();
        std::mem::swap(&mut paths, &mut self.paths);
        paths.push(path);
        assert(paths@.map_values(|q: String| q@) =~= before.push(p));
        self.paths = paths;
        true
    }

    /// Whether a reader should be tried on the device at `path`, named
    /// `file_name`: an event device that has none yet.
    pub fn should_attach(&self, file_name: &str, path: &str) -> (r: bool)
        ensures
            r == (has_prefix(file_name@, "event"@) && !self@.contains(path@)),
    {
        is_event_device_name(file_name) && !self.contains(path)
    }

    /// Records one directory entry of a device scan: the device at `path`,
    /// named `file_name`, is attached when it is an event device without a
    /// reader yet and `is_keyboard` says it has both Control keys. Returns
    /// whether a reader is to be started for it.
    pub fn record_scanned(&mut self, file_name: &str, path: String, is_keyboard: bool) -> (attached:
        bool)
        ensures
            attached == (has_prefix(file_name@, "event"@) && !old(self)@.contains(path@)
                && is_keyboard),
            final(self)@ == scan_step(old(self)@, file_name@, path@, is_keyboard),
    {
        if is_keyboard && self.should_attach(file_name, path.as_str()) {
            self.insert(path)
        } else {
            false
        }
    }

    /// Forgets the device at `path`; whether it was attached.
    pub fn remove(&mut self, path: &str) -> (removed: bool)
        ensures
            removed == old(self)@.contains(path@),
            final(self)@ == without_path(old(self)@, path@),
    {
        let ghost before = self@;
        proof {
            use_type_invariant(&*self);
        }
        let mut old_paths: Vec<String> = Vec::new();
        std::mem::swap(&mut old_paths, &mut self.paths);
        let mut kept: Vec<String> = Vec::new();
        let mut removed = false;
        let n = old_paths.len();
        let mut i: usize = 0;
        while i < n
            invariant
                n == old_paths@.len(),
                before == old_paths@.map_values(|q: String| q@),
                i <= n,
                kept@.map_values(|q: String| q@) == without_path(before.take(i as int), path@),
                removed == before.take(i as int).contains(path@),
            decreases n - i,
        {
            let same = same_text(old_paths[i].as_str(), path);
            proof {
                reveal_with_fuel(Seq::<_>::filter, 1);
                let next = before.take(i + 1);
                assert(next.drop_last() =~= before.take(i as int));
                assert(next.last() == old_paths@[i as int]@);
                assert(other_than(path@)(next.last()) == !same);
                if same {
                    assert(next[i as int] == path@);
                }
                if before.take(i as int).contains(path@) {
                    let k = choose|k: int| 0 <= k < i && before.take(i as int)[k] == path@;
                    assert(next[k] == path@);
                }
                if next.contains(path@) && !same {
                    let k = choose|k: int| 0 <= k <= i && next[k] == path@;
                    assert(before.take(i as int)[k] == path@);
                }
            }
            if same {
                removed = true;
            } else {
                let q = old_paths[i].clone();
                let ghost kv = kept@.map_values(|s: String| s@);
                kept.push(q);
                assert(kept@.map_values(|s: String| s@) =~= kv.push(old_paths@[i as int]@));
            }
            i = i + 1;
        }
        assert(before.take(n as int) =~= before);
        proof {
            lemma_filter_keeps_no_duplicates(before, other_than(path@));
        }
        self.paths = kept;
        removed
    }
}

/// Forgetting a device takes exactly that device out of the set.
pub proof fn lemma_remove_forgets_only_that_device(s: Seq<Seq<char>>, gone: Seq<char>, other: Seq<char>)
    requires
        other != gone,
    ensures
        !without_path(s, gone).contains(gone),
        without_path(s, gone).contains(other) == s.contains(other),
{
    broadcast use Seq::lemma_filter_pred, Seq::lemma_filter_contains;

    let pred = other_than(gone);
    let r = without_path(s, gone);
    if r.contains(gone) {
        let k = choose|k: int| 0 <= k < r.len() && r[k] == gone;
        assert(pred(s.filter(pred)[k]));
    }
    if s.contains(other) {
        let k = choose|k: int| 0 <= k < s.len() && s[k] == other;
        assert(pred(s[k]));
        assert(s.filter(pred).contains(s[k]));
    }
    if r.contains(other) {
        s.lemma_filter_contains_rev(pred, other);
    }
}


/// One entry of a device scan: the device at `path`, named `name`, is
/// attached when it is an event device not attached yet and a keyboard.
pub open spec fn scan_step(s: Seq<Seq<char>>, name: Seq<char>, path: Seq<char>, is_keyboard: bool) -> Seq<
    Seq<char>,
> {
    if has_prefix(name, "event"@) && !s.contains(path) && is_keyboard {
        s.push(path)
    } else {
        s
    }
}

/// The attached devices after a scan of the directory entries `entries`
/// (name and path of each, in order), where `is_keyboard` tells which
/// devices have both Control keys.
pub open spec fn scan_result(
    s: Seq<Seq<char>>,
    entries: Seq<(Seq<char>, Seq<char>)>,
    is_keyboard: spec_fn(Seq<char>) -> bool,
) -> Seq<Seq<char>>
    decreases entries.len(),
{
    if entries.len() == 0 {
        s
    } else {
        scan_result(
            scan_step(s, entries[0].0, entries[0].1, is_keyboard(entries[0].1)),
            entries.drop_first(),
            is_keyboard,
        )
    }
}

/// Whether no entry of `entries` would attach a device to `s`.
pub open spec fn scan_settled(
    s: Seq<Seq<char>>,
    entries: Seq<(Seq<char>, Seq<char>)>,
    is_keyboard: spec_fn(Seq<char>) -> bool,
) -> bool {
    forall|i: int|
        0 <= i < entries.len() ==> !(has_prefix((#[trigger] entries[i]).0, "event"@)
            && !s.contains(entries[i].1) && is_keyboard(entries[i].1))
}

/// A scan forgets no attached device.
proof fn lemma_scan_keeps_devices(
    s: Seq<Seq<char>>,
    entries: Seq<(Seq<char>, Seq<char>)>,
    is_keyboard: spec_fn(Seq<char>) -> bool,
    x: Seq<char>,
)
    requires
        s.contains(x),
    ensures
        scan_result(s, entries, is_keyboard).contains(x),
    decreases entries.len(),
{
    if entries.len() > 0 {
        let next = scan_step(s, entries[0].0, entries[0].1, is_keyboard(entries[0].1));
        if next != s {
            let k = choose|k: int| 0 <= k < s.len() && s[k] == x;
            assert(next[k] == x);
        }
        lemma_scan_keeps_devices(next, entries.drop_first(), is_keyboard, x);
    }
}

/// After a scan, no entry it scanned would attach a device again.
proof fn lemma_scan_settles(
    s: Seq<Seq<char>>,
    entries: Seq<(Seq<char>, Seq<char>)>,
    is_keyboard: spec_fn(Seq<char>) -> bool,
)
    ensures
        scan_settled(scan_result(s, entries, is_keyboard), entries, is_keyboard),
    decreases entries.len(),
{
    if entries.len() > 0 {
        let e = entries[0];
        let next = scan_step(s, e.0, e.1, is_keyboard(e.1));
        let rest = entries.drop_first();
        let t = scan_result(s, entries, is_keyboard);
        lemma_scan_settles(next, rest, is_keyboard);
        assert forall|i: int|
            0 <= i < entries.len() implies !(has_prefix((#[trigger] entries[i]).0, "event"@)
            && !t.contains(entries[i].1) && is_keyboard(entries[i].1)) by {
            if i == 0 {
                if has_prefix(e.0, "event"@) && is_keyboard(e.1) {
                    if !s.contains(e.1) {
                        assert(next[s.len() as int] == e.1);
                    }
                    assert(next.contains(e.1));
                    lemma_scan_keeps_devices(next, rest, is_keyboard, e.1);
                }
            } else {
                assert(entries[i] == rest[i - 1]);
            }
        }
    }
}

/// A scan over entries none of which would attach a device changes nothing.
proof fn lemma_settled_scan_changes_nothing(
    s: Seq<Seq<char>>,
    entries: Seq<(Seq<char>, Seq<char>)>,
    is_keyboard: spec_fn(Seq<char>) -> bool,
)
    requires
        scan_settled(s, entries, is_keyboard),
    ensures
        scan_result(s, entries, is_keyboard) == s,
    decreases entries.len(),
{
    if entries.len() > 0 {
        let rest = entries.drop_first();
        assert(!(has_prefix(entries[0].0, "event"@) && !s.contains(entries[0].1) && is_keyboard(
            entries[0].1,
        )));
        assert forall|i: int|
            0 <= i < rest.len() implies !(has_prefix((#[trigger] rest[i]).0, "event"@)
            && !s.contains(rest[i].1) && is_keyboard(rest[i].1)) by {
            assert(rest[i] == entries[i + 1]);
        }
        lemma_settled_scan_changes_nothing(s, rest, is_keyboard);
    }
}

/// Scanning the same, unchanged devices a second time attaches nothing: the
/// set stays as the first scan left it, so no device gets a second reader.
pub proof fn lemma_second_scan_attaches_nothing(
    s: Seq<Seq<char>>,
    entries: Seq<(Seq<char>, Seq<char>)>,
    is_keyboard: spec_fn(Seq<char>) -> bool,
)
    ensures
        scan_result(scan_result(s, entries, is_keyboard), entries, is_keyboard) == scan_result(
            s,
            entries,
            is_keyboard,
        ),
{
    lemma_scan_settles(s, entries, is_keyboard);
    lemma_settled_scan_changes_nothing(scan_result(s, entries, is_keyboard), entries, is_keyboard);
}

} // verus!
