use vstd::prelude::*;
use vstd::string::*;
use crate::config::{home_or_tmp, join_path, path_join};
use crate::text::{
    append_decimal, chars_of, decimal_text, parse_i32, parsed_i32, same_chars, same_text,
    trim_bounds, trimmed,
};

verus! {

/// The uppercase mapping of `c` in the Unicode Character Database, as
/// `char::to_uppercase` yields it (one or more characters).
pub uninterp spec fn uppercase_of(c: char) -> Seq<char>;

/// `char::to_uppercase`, collected into a `String`. Stated: the result is
/// the uppercase mapping of `c`; a lowercase ASCII letter maps to its
/// uppercase letter, and another ASCII character to itself. Not stated: the
/// mapping of other characters.
#[verifier::external_body]
fn char_to_uppercase(c: char) -> (s: String)
    ensures
        s@ == uppercase_of(c),
        'a' <= c <= 'z' ==> s@ == seq![((c as int) - 32) as char],
        (c as int) < 128 && !('a' <= c <= 'z') ==> s@ == seq![c],
{
    c.to_uppercase().collect::<String>()
}

/// The name shown for a layout code: the three known codes by their
/// language, other codes with their first character in uppercase.
pub open spec fn layout_display_name(code: Seq<char>) -> Seq<char> {
    if code == "us"@ {
        "English (U.S.)"@
    } else if code == "ru"@ {
        "Russian"@
    } else if code == "ua"@ {
        "Ukrainian"@
    } else if code.len() == 0 {
        Seq::empty()
    } else {
        uppercase_of(code[0]) + code.drop_first()
    }
}

/// The uppercase form of an ASCII character: a lowercase letter becomes its
/// capital, any other character stays as it is.
pub open spec fn ascii_uppercase(c: char) -> char {
    if 'a' <= c <= 'z' {
        ((c as int) - 32) as char
    } else {
        c
    }
}

/// Whether `code` is one of the layout codes shown by their language.
pub open spec fn is_named_code(code: Seq<char>) -> bool {
    code == "us"@ || code == "ru"@ || code == "ua"@
}

/// Only the exact codes "us", "ru" and "ua" are shown by their language;
/// every other code that begins with an ASCII character is shown as itself
/// with that character in uppercase (so "us+intl" stays told apart from "us").
pub proof fn lemma_other_codes_shown_capitalised(code: Seq<char>)
    requires
        code != "us"@,
        code != "ru"@,
        code != "ua"@,
        code.len() > 0,
        (code[0] as int) < 128,
        uppercase_of(code[0]) == seq![ascii_uppercase(code[0])],
    ensures
        layout_display_name(code).len() == code.len(),
        layout_display_name(code).drop_first() == code.drop_first(),
        'a' <= code[0] <= 'z' ==> layout_display_name(code)[0] as int == code[0] as int - 32,
        !('a' <= code[0] <= 'z') ==> layout_display_name(code)[0] == code[0],
{
    let n = layout_display_name(code);
    assert(n == seq![ascii_uppercase(code[0])] + code.drop_first());
    assert(n.drop_first() =~= code.drop_first());
}

/// The name shown for the layout with code `code`. Where the code is none of
/// the three named ones and begins with an ASCII character, the name is the
/// code with that character in uppercase.
pub fn format_layout_name(code: &str) -> (name: String)
    ensures
        name@ == layout_display_name(code@),
        !is_named_code(code@) && code@.len() > 0 && (code@[0] as int) < 128 ==> name@ == seq![
            ascii_uppercase(code@[0]),
        ] + code@.drop_first(),
        code@ == "us"@ ==> name@ == "English (U.S.)"@,
        code@ == "ru"@ ==> name@ == "Russian"@,
        code@ == "ua"@ ==> name@ == "Ukrainian"@,
        code@ != "us"@ && code@ != "ru"@ && code@ != "ua"@ && code@.len() > 0 && (code@[0] as int)
            < 128 ==> {
            &&& name@.len() == code@.len()
            &&& name@.drop_first() == code@.drop_first()
            &&& ('a' <= code@[0] <= 'z' ==> name@[0] as int == code@[0] as int - 32)
            &&& !('a' <= code@[0] <= 'z') ==> name@[0] == code@[0]
        },
        code@.len() == 0 ==> name@.len() == 0,
{
    proof {
        reveal_strlit("us");
        reveal_strlit("ru");
        reveal_strlit("ua");
        assert("ru"@[0] != "us"@[0]);
        assert("ua"@[1] != "us"@[1]);
        assert("ua"@[0] != "ru"@[0]);
    }
    if same_text(code, "us") {
        String::from_str("English (U.S.)")
    } else if same_text(code, "ru") {
        String::from_str("Russian")
    } else if same_text(code, "ua") {
        String::from_str("Ukrainian")
    } else {
        let n = code.unicode_len();
        if n == 0 {
            String::new()
        } else {
            let first = code.get_char(0);
            let mut name = char_to_uppercase(first);
            let rest = code.substring_char(1, n);
            assert(rest@ == code@.drop_first());
            name.append(rest);
            name
        }
    }
}

/// The autostart directory, `~/.config/autostart`.
pub open spec fn autostart_dir_of(home: Option<&str>) -> Seq<char> {
    path_join(path_join(home_or_tmp(home), ".config"@), "autostart"@)
}

/// The autostart directory for the home directory `home` (`/tmp` where none
/// is known).
pub fn autostart_dir(home: Option<&str>) -> (dir: String)
    ensures
        dir@ == autostart_dir_of(home),
{
    let base = match home {
        Some(h) => h,
        None => "/tmp",
    };
    let config = join_path(base, ".config");
    join_path(config.as_str(), "autostart")
}

/// The desktop entry that starts the daemon at login.
pub fn autostart_desktop_path(home: Option<&str>) -> (path: String)
    ensures
        path@ == path_join(autostart_dir_of(home), "GnomeLngSwitcher.desktop"@),
{
    let dir = autostart_dir(home);
    join_path(dir.as_str(), "GnomeLngSwitcher.desktop")
}

/// The text of the desktop entry that starts the program at `exe_path` as a
/// daemon at login.
pub fn autostart_entry(exe_path: &str) -> (text: String)
    ensures
        text@ == "[Desktop Entry]\nType=Application\nName=Gnome Keyboard Layout Switcher\nComment=Switch keyboard layouts using Control keys\nExec="@
            + exe_path@ + " --daemon\nTerminal=false\nX-GNOME-Autostart-enabled=true\n"@,
{
    let mut text = String::from_str(
        "[Desktop Entry]\nType=Application\nName=Gnome Keyboard Layout Switcher\nComment=Switch keyboard layouts using Control keys\nExec=",
    );
    text.append(exe_path);
    text.append(" --daemon\nTerminal=false\nX-GNOME-Autostart-enabled=true\n");
    text
}

/// The directory of the GNOME Shell helper extension.
pub open spec fn extension_dir_of(home: Seq<char>) -> Seq<char> {
    path_join(
        path_join(
            path_join(path_join(path_join(home, ".local"@), "share"@), "gnome-shell"@),
            "extensions"@,
        ),
        "gnome-lng-switcher@github.com"@,
    )
}

/// The directory of the GNOME Shell helper extension for the home directory
/// `home`.
pub fn extension_dir(home: &str) -> (dir: String)
    ensures
        dir@ == extension_dir_of(home@),
{
    let a = join_path(home, ".local");
    let b = join_path(a.as_str(), "share");
    let c = join_path(b.as_str(), "gnome-shell");
    let d = join_path(c.as_str(), "extensions");
    join_path(d.as_str(), "gnome-lng-switcher@github.com")
}

/// Whether `s[i..j]` is a line of `s`: it lies between line feeds (or the
/// text's ends) and holds none.
pub open spec fn is_line(s: Seq<char>, i: int, j: int) -> bool {
    &&& 0 <= i <= j <= s.len()
    &&& (i == 0 || s[i - 1] == '\n')
    &&& (j == s.len() || s[j] == '\n')
    &&& forall|k: int| i <= k < j ==> s[k] != '\n'
}

/// Whether some line of `s`, trimmed, is `line`.
pub open spec fn has_trimmed_line(s: Seq<char>, line: Seq<char>) -> bool {
    exists|i: int, j: int| is_line(s, i, j) && trimmed(s.subrange(i, j)) == line
}

/// Whether the output of `gnome-extensions list --enabled` names the helper
/// extension on a line of its own.
pub fn extension_listed(stdout: &str) -> (r: bool)
    ensures
        r == has_trimmed_line(stdout@, "gnome-lng-switcher@github.com"@),
{
    let v = chars_of(stdout);
    let uuid = chars_of("gnome-lng-switcher@github.com");
    let ghost s = stdout@;
    let n = v.len();
    let mut i: usize = 0;
    loop
        invariant
            v@ == s,
            s == stdout@,
            uuid@ == "gnome-lng-switcher@github.com"@,
            n == s.len(),
            i <= n,
            i == 0 || s[i - 1] == '\n',
            forall|p: int, q: int|
                #![trigger is_line(s, p, q)]
                is_line(s, p, q) && p < i ==> trimmed(s.subrange(p, q)) != uuid@,
        decreases n - i,
    {
        let mut j = i;
        while j < n && v[j] != '\n'
            invariant
                v@ == s,
                n == s.len(),
                i <= j <= n,
                forall|k: int| i <= k < j ==> s[k] != '\n',
            decreases n - j,
        {
            j = j + 1;
        }
        assert(is_line(s, i as int, j as int));
        let (a, b) = trim_bounds(&v, i, j);
        if same_chars(&v, a, b, &uuid) {
            assert(is_line(s, i as int, j as int) && trimmed(s.subrange(i as int, j as int))
                == uuid@);
            return true;
        }
        assert forall|p: int, q: int|
            #![trigger is_line(s, p, q)]
            is_line(s, p, q) && p < j + 1 implies trimmed(s.subrange(p, q)) != uuid@ by {
            if p >= i {
                if p > i {
                    assert(s[p - 1] == '\n');
                    assert(p - 1 >= j);
                }
                assert(p == i);
                if q < j {
                    assert(s[q] == '\n');
                }
                if q > j {
                    assert(s[j as int] == '\n' || j == n);
                }
                assert(q == j);
            }
        }
        if j == n {
            proof {
                if has_trimmed_line(s, uuid@) {
                    let (p, q) = choose|p: int, q: int|
                        is_line(s, p, q) && trimmed(s.subrange(p, q)) == uuid@;
                    assert(is_line(s, p, q) && p < j + 1);
                }
            }
            return false;
        }
        i = j + 1;
    }
}


/// The `/proc` entry of the process whose PID the PID file holds, if the
/// file holds one: its text, trimmed, read as an `i32`.
pub open spec fn proc_path_of(pid_text: Seq<char>) -> Option<Seq<char>> {
    match parsed_i32(trimmed(pid_text)) {
        Some(pid) => Some("/proc/"@ + decimal_text(pid as int)),
        None => None,
    }
}

/// The `/proc` entry whose existence tells that the daemon named by the PID
/// file's text `pid_text` is running; `None` where the text holds no PID.
pub fn daemon_proc_path(pid_text: &str) -> (r: Option<String>)
    ensures
        match r {
            Some(p) => proc_path_of(pid_text@) == Some(p@),
            None => proc_path_of(pid_text@) is None,
        },
{
    let v = chars_of(pid_text);
    let (a, b) = trim_bounds(&v, 0, v.len());
    assert(v@.subrange(0, v@.len() as int) =~= pid_text@);
    match parse_i32(&v, a, b) {
        Some(pid) => {
            let mut path = String::from_str("/proc/");
            append_decimal(&mut path, pid);
            Some(path)
        },
        None => None,
    }
}

} // verus!
