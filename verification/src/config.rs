use vstd::prelude::*;
use vstd::string::*;

verus! {

/// Settings of the switcher, as stored in the configuration file.
#[derive(Clone, Debug)]
pub struct AppConfig {
    /// Layout index that a tap of Left Control switches to.
    pub left_ctrl_layout: u32,
    /// Layout indices that taps of Right Control cycle through, in order.
    pub right_ctrl_layouts: Vec<u32>,
    /// Longest press, in milliseconds, that still counts as a tap.
    pub sensitivity_ms: u64,
    /// Width of the settings window, where one is configured.
    pub window_width: Option<i32>,
    /// Height of the settings window, where one is configured.
    pub window_height: Option<i32>,
}

/// The settings in force when no configuration file can be read.
pub open spec fn is_default_config(c: AppConfig) -> bool {
    &&& c.left_ctrl_layout == 0
    &&& c.right_ctrl_layouts@ == seq![1u32]
    &&& c.sensitivity_ms == 300
    &&& c.window_width is None
    &&& c.window_height is None
}

impl Default for AppConfig {
    fn default() -> (c: Self)
        ensures
            is_default_config(c),
    {
        let mut right_ctrl_layouts: Vec<u32> = Vec::new();
        right_ctrl_layouts.push(1);
        AppConfig {
            left_ctrl_layout: 0,
            right_ctrl_layouts,
            sensitivity_ms: 300,
            window_width: None,
            window_height: None,
        }
    }
}

/// The configuration that is used: the one read from the file where it could
/// be read and parsed, the default settings otherwise.
pub fn load_config(parsed: Option<AppConfig>) -> (c: AppConfig)
    ensures
        match parsed {
            Some(p) => c == p,
            None => is_default_config(c),
        },
{
    match parsed {
        Some(p) => p,
        None => AppConfig::default(),
    }
}

/// `s` with every occurrence of `x` taken out, the rest in order.
pub open spec fn without(s: Seq<u32>, x: u32) -> Seq<u32> {
    s.filter(differs_from(x))
}

/// The test that keeps every value other than `x`.
pub open spec fn differs_from(x: u32) -> spec_fn(u32) -> bool {
    |y: u32| y != x
}

/// The cycle list after its check box for `idx` was set to `active`.
pub open spec fn with_right_layout(s: Seq<u32>, idx: u32, active: bool) -> Seq<u32> {
    if active {
        if s.contains(idx) {
            s
        } else {
            s.push(idx)
        }
    } else {
        without(s, idx)
    }
}

impl AppConfig {
    /// Whether `idx` is in the list that Right Control cycles through.
    pub fn cycles_layout(&self, idx: u32) -> (r: bool)
        ensures
            r == self.right_ctrl_layouts@.contains(idx),
    {
        let n = self.right_ctrl_layouts.len();
        let mut i: usize = 0;
        while i < n
            invariant
                n == self.right_ctrl_layouts@.len(),
                i <= n,
                forall|j: int| 0 <= j < i ==> self.right_ctrl_layouts@[j] != idx,
            decreases n - i,
        {
            if self.right_ctrl_layouts[i] == idx {
                return true;
            }
            i = i + 1;
        }
        false
    }

    /// Puts `idx` into the Right Control cycle (at its end, where it is not
    /// there yet) when `active`, and takes every occurrence of it out otherwise.
    pub fn set_right_layout(&mut self, idx: u32, active: bool)
        ensures
            final(self).right_ctrl_layouts@ == with_right_layout(
                old(self).right_ctrl_layouts@,
                idx,
                active,
            ),
            active && !old(self).right_ctrl_layouts@.contains(idx)
                ==> final(self).right_ctrl_layouts@ == old(self).right_ctrl_layouts@.push(idx),
            active && old(self).right_ctrl_layouts@.contains(idx)
                ==> final(self).right_ctrl_layouts@ == old(self).right_ctrl_layouts@,
            !active ==> final(self).right_ctrl_layouts@ == old(self).right_ctrl_layouts@.filter(
                |y: u32| y != idx,
            ),
            final(self).left_ctrl_layout == old(self).left_ctrl_layout,
            final(self).sensitivity_ms == old(self).sensitivity_ms,
            final(self).window_width == old(self).window_width,
            final(self).window_height == old(self).window_height,
    {
        proof {
            assert(differs_from(idx) =~= (|y: u32| y != idx));
        }
        if active {
            if !self.cycles_layout(idx) {
                self.right_ctrl_layouts.push(idx);
            }
        } else {
            let ghost old_list = self.right_ctrl_layouts@;
            let mut kept: Vec<u32> = Vec::new();
            let n = self.right_ctrl_layouts.len();
            let mut i: usize = 0;
            while i < n
                invariant
                    n == old_list.len(),
                    self.right_ctrl_layouts@ == old_list,
                    i <= n,
                    kept@ == without(old_list.take(i as int), idx),
                decreases n - i,
            {
                let x = self.right_ctrl_layouts[i];
                proof {
                    reveal_with_fuel(Seq::<_>::filter, 1);
                    let next = old_list.take(i + 1);
                    assert(next.drop_last() =~= old_list.take(i as int));
                    assert(next.last() == x);
                    assert(differs_from(idx)(x) == (x != idx));
                }
                if x != idx {
                    kept.push(x);
                }
                i = i + 1;
            }
            assert(old_list.take(n as int) =~= old_list);
            self.right_ctrl_layouts = kept;
        }
    }

    /// The size of the settings window: the configured width and height,
    /// 540 by 660 pixels where none is configured.
    pub fn window_size(&self) -> (size: (i32, i32))
        ensures
            size.0 == (match self.window_width {
                Some(w) => w,
                None => 540,
            }),
            size.1 == (match self.window_height {
                Some(h) => h,
                None => 660,
            }),
    {
        let width = match self.window_width {
            Some(w) => w,
            None => 540,
        };
        let height = match self.window_height {
            Some(h) => h,
            None => 660,
        };
        (width, height)
    }

    /// The entry of the Left Control list to select when the settings window
    /// opens: the configured layout, where it is one of the `n_layouts` shown.
    pub fn left_layout_selection(&self, n_layouts: usize) -> (r: Option<u32>)
        ensures
            r == (if self.left_ctrl_layout < (n_layouts as u32) {
                Some(self.left_ctrl_layout)
            } else {
                None
            }),
    {
        if self.left_ctrl_layout < #[verifier::truncate] (n_layouts as u32) {
            Some(self.left_ctrl_layout)
        } else {
            None
        }
    }
}

/// Filtering a sequence without repeats leaves one without repeats.
pub proof fn lemma_filter_keeps_no_duplicates<A>(s: Seq<A>, pred: spec_fn(A) -> bool)
    requires
        s.no_duplicates(),
    ensures
        s.filter(pred).no_duplicates(),
    decreases s.len(),
{
    reveal_with_fuel(Seq::<_>::filter, 1);
    if s.len() > 0 {
        let init = s.drop_last();
        assert(init.no_duplicates());
        lemma_filter_keeps_no_duplicates(init, pred);
        if pred(s.last()) {
            let f = init.filter(pred);
            assert forall|j: int| 0 <= j < f.len() implies f[j] != s.last() by {
                init.lemma_filter_contains_rev(pred, f[j]);
                let k = choose|k: int| 0 <= k < init.len() && init[k] == f[j];
                assert(s[k] == init[k]);
            }
        }
    }
}

/// Setting a check box leaves `idx` in the cycle exactly when the box is on,
/// and changes the membership of no other layout.
pub proof fn lemma_set_right_layout_membership(s: Seq<u32>, idx: u32, active: bool, other: u32)
    requires
        other != idx,
    ensures
        with_right_layout(s, idx, active).contains(idx) == active,
        with_right_layout(s, idx, active).contains(other) == s.contains(other),
{
    broadcast use Seq::lemma_filter_pred, Seq::lemma_filter_contains;

    let pred = differs_from(idx);
    let r = with_right_layout(s, idx, active);
    if active {
        if !s.contains(idx) {
            assert(r[s.len() as int] == idx);
            if s.contains(other) {
                let k = choose|k: int| 0 <= k < s.len() && s[k] == other;
                assert(r[k] == other);
            }
            if r.contains(other) {
                let k = choose|k: int| 0 <= k < r.len() && r[k] == other;
                assert(s[k] == other);
            }
        }
    } else {
        if r.contains(idx) {
            let k = choose|k: int| 0 <= k < r.len() && r[k] == idx;
            assert(pred(s.filter(pred)[k]));
        }
        if s.contains(other) {
            let k = choose|k: int| 0 <= k < s.len() && s[k] == other;
            assert(pred(s[k]));
            assert(s.filter(pred).contains(s[k]));
        }
        if r.contains(other) {
            s.lemma_filter_contains_rev(pred, other);
        }
    }
}

/// Setting check boxes never puts a layout twice into the cycle list: a list
/// without repeats stays without repeats.
pub proof fn lemma_set_right_layout_keeps_list_without_repeats(s: Seq<u32>, idx: u32, active: bool)
    requires
        s.no_duplicates(),
    ensures
        with_right_layout(s, idx, active).no_duplicates(),
{
    if active {
        if !s.contains(idx) {
            let r = s.push(idx);
            assert forall|i: int, j: int|
                0 <= i < r.len() && 0 <= j < r.len() && i != j implies r[i] != r[j] by {
                if i < s.len() && j < s.len() {
                    assert(r[i] == s[i] && r[j] == s[j]);
                } else if i < s.len() {
                    assert(r[i] == s[i]);
                } else if j < s.len() {
                    assert(r[j] == s[j]);
                }
            }
        }
    } else {
        lemma_filter_keeps_no_duplicates(s, differs_from(idx));
    }
}

/// Checking the box of a layout that is not in the cycle yet appends it at
/// the end: every old entry keeps its place and the new one comes last, so
/// Right Control visits the layouts in the order they were chosen.
pub proof fn lemma_checked_layout_goes_last(s: Seq<u32>, idx: u32)
    requires
        !s.contains(idx),
    ensures
        with_right_layout(s, idx, true).len() == s.len() + 1,
        forall|i: int| 0 <= i < s.len() ==> with_right_layout(s, idx, true)[i] == s[i],
        with_right_layout(s, idx, true)[s.len() as int] == idx,
{
}

/// Unchecking a box takes every occurrence of that layout out of the cycle
/// and keeps the others in their order; checking a box of a layout already
/// in the cycle changes nothing.
pub proof fn lemma_unchecked_layout_is_filtered_out(s: Seq<u32>, idx: u32)
    ensures
        with_right_layout(s, idx, false) == s.filter(|y: u32| y != idx),
        s.contains(idx) ==> with_right_layout(s, idx, true) == s,
{
    assert(differs_from(idx) =~= (|y: u32| y != idx));
}

/// Joining a relative path component onto a base path, as `PathBuf::join`
/// does on Unix: a separator is put between them unless the base is empty or
/// already ends with one.
pub open spec fn path_join(base: Seq<char>, part: Seq<char>) -> Seq<char> {
    if base.len() > 0 && base.last() != '/' {
        base + seq!['/'] + part
    } else {
        base + part
    }
}

/// Joins the relative component `part` onto `base`.
pub fn join_path(base: &str, part: &str) -> (res: String)
    ensures
        res@ == path_join(base@, part@),
{
    let n = base.unicode_len();
    let mut res = base.to_owned();
    if n > 0 && base.get_char(n - 1) != '/' {
        let sep = "/";
        proof {
            reveal_strlit("/");
        }
        res.append(sep);
    }
    res.append(part);
    res
}

/// The home directory, or `/tmp` where none is known.
pub open spec fn home_or_tmp(home: Option<&str>) -> Seq<char> {
    match home {
        Some(h) => h@,
        None => "/tmp"@,
    }
}

/// The directory that holds the configuration and the daemon's PID file.
pub open spec fn config_dir_of(home: Option<&str>) -> Seq<char> {
    path_join(path_join(home_or_tmp(home), ".config"@), "gnome-lng-switcher"@)
}

/// The configuration directory, `~/.config/gnome-lng-switcher`, for the home
/// directory `home` (the value of `HOME`, where it is set).
pub fn get_config_dir(home: Option<&str>) -> (dir: String)
    ensures
        dir@ == config_dir_of(home),
{
    let base = match home {
        Some(h) => h,
        None => "/tmp",
    };
    let config = join_path(base, ".config");
    join_path(config.as_str(), "gnome-lng-switcher")
}

/// The path of the configuration file, `config.json` in the configuration
/// directory.
pub fn get_config_path(home: Option<&str>) -> (path: String)
    ensures
        path@ == path_join(config_dir_of(home), "config.json"@),
{
    let dir = get_config_dir(home);
    join_path(dir.as_str(), "config.json")
}

/// The path of the daemon's PID file, `daemon.pid` in the configuration
/// directory.
pub fn get_pid_path(home: Option<&str>) -> (path: String)
    ensures
        path@ == path_join(config_dir_of(home), "daemon.pid"@),
{
    let dir = get_config_dir(home);
    join_path(dir.as_str(), "daemon.pid")
}

} // verus!
