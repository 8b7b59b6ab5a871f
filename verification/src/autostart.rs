//! Starting with the session: the registry value and desktop entry that
//! launch the program minimised, and whether a stored registry value
//! still points at the running executable. Reading and writing them is
//! the caller's part; the functions named after the commands give the
//! answers of a platform without any such mechanism.
use vstd::prelude::*;
use crate::text::{chars_of, is_whitespace, is_whitespace_exec, owned, push_str, string_of, trim, trim_exec};

verus! {

/// Enabling start with the session, where the platform has no mechanism.
pub fn enable_autostart() -> (r: Result<(), String>)
    ensures
        r matches Err(e) && e@ == "Auto-start not supported on this platform"@,
{
    Err(owned("Auto-start not supported on this platform"))
}

/// Disabling start with the session, where the platform has no mechanism.
pub fn disable_autostart() -> (r: Result<(), String>)
    ensures
        r matches Err(e) && e@ == "Auto-start not supported on this platform"@,
{
    Err(owned("Auto-start not supported on this platform"))
}

/// Whether the program starts with the session, where the platform has no
/// mechanism: never.
pub fn is_autostart_enabled() -> (r: bool)
    ensures
        !r,
{
    false
}

/// The registry value that starts `exe` minimised.
pub open spec fn run_value(exe: Seq<char>) -> Seq<char> {
    "\""@ + exe + "\" --minimized"@
}

/// The registry value that starts `exe` minimised.
pub fn registry_run_value(exe: &str) -> (r: String)
    ensures
        r@ == run_value(exe@),
{
    let mut r = owned("\"");
    push_str(&mut r, exe);
    push_str(&mut r, "\" --minimized");
    r
}

/// The desktop entry that starts `exe` minimised with the session.
pub open spec fn desktop_entry_spec(exe: Seq<char>) -> Seq<char> {
    "[Desktop Entry]\nType=Application\nName=What Changed?\nExec="@ + exe
        + " --minimized\nHidden=false\nNoDisplay=false\nX-GNOME-Autostart-enabled=true\nComment=Monitor file system changes\n"@
}

/// The desktop entry that starts `exe` minimised with the session.
pub fn desktop_entry(exe: &str) -> (r: String)
    ensures
        r@ == desktop_entry_spec(exe@),
{
    let mut r = owned("[Desktop Entry]\nType=Application\nName=What Changed?\nExec=");
    push_str(&mut r, exe);
    push_str(
        &mut r,
        " --minimized\nHidden=false\nNoDisplay=false\nX-GNOME-Autostart-enabled=true\nComment=Monitor file system changes\n",
    );
    r
}

/// The desktop entry's file name.
pub fn desktop_file_name() -> (r: String)
    ensures
        r@ == "WhatChanged.desktop"@,
{
    owned("WhatChanged.desktop")
}

/// Index of the first `c` in `s`, or `-1`.
pub open spec fn first_index(s: Seq<char>, c: char) -> int
    decreases s.len(),
{
    if s.len() == 0 {
        -1
    } else if s[0] == c {
        0
    } else {
        let k = first_index(s.drop_first(), c);
        if k < 0 {
            -1
        } else {
            k + 1
        }
    }
}

/// Index of the first white-space character of `s`, or its length.
pub open spec fn first_space(s: Seq<char>) -> int
    decreases s.len(),
{
    if s.len() == 0 {
        0
    } else if is_whitespace(s[0]) {
        0
    } else {
        first_space(s.drop_first()) + 1
    }
}

/// The executable a registry value names: the quoted part when it opens
/// with a quote that is closed, the whole trimmed value when the quote is
/// not closed, else the first word.
pub open spec fn registered_exe_spec(stored: Seq<char>) -> Seq<char> {
    let t = trim(stored);
    if t.len() > 0 && t[0] == '"' {
        let inner = t.drop_first();
        let q = first_index(inner, '"');
        if q >= 0 {
            inner.take(q)
        } else {
            t
        }
    } else {
        t.take(first_space(t))
    }
}

pub(crate) proof fn lemma_first_index_bounds(s: Seq<char>, c: char)
    ensures
        -1 <= first_index(s, c) < s.len(),
        first_index(s, c) >= 0 ==> s[first_index(s, c)] == c,
        forall|j: int| 0 <= j < s.len() && (first_index(s, c) < 0 || j < first_index(s, c)) ==> s[j] != c,
    decreases s.len(),
{
    if s.len() > 0 && s[0] != c {
        lemma_first_index_bounds(s.drop_first(), c);
        assert forall|j: int| 0 <= j < s.len() && (first_index(s, c) < 0 || j < first_index(s, c)) implies s[j] != c by {
            if j > 0 {
                assert(s.drop_first()[j - 1] == s[j]);
            }
        }
    }
}

proof fn lemma_first_space_bounds(s: Seq<char>)
    ensures
        0 <= first_space(s) <= s.len(),
        first_space(s) < s.len() ==> is_whitespace(s[first_space(s)]),
        forall|j: int| 0 <= j < first_space(s) ==> !is_whitespace(s[j]),
    decreases s.len(),
{
    if s.len() > 0 && !is_whitespace(s[0]) {
        lemma_first_space_bounds(s.drop_first());
        assert forall|j: int| 0 <= j < first_space(s) implies !is_whitespace(s[j]) by {
            if j > 0 {
                assert(s.drop_first()[j - 1] == s[j]);
            }
        }
    }
}

pub(crate) proof fn lemma_first_index_is(s: Seq<char>, c: char, i: int)
    requires
        0 <= i < s.len(),
        s[i] == c,
        forall|j: int| 0 <= j < i ==> s[j] != c,
    ensures
        first_index(s, c) == i,
    decreases s.len(),
{
    if i > 0 {
        assert forall|j: int| 0 <= j < i - 1 implies s.drop_first()[j] != c by {
            assert(s.drop_first()[j] == s[j + 1]);
        }
        lemma_first_index_is(s.drop_first(), c, i - 1);
    }
}

pub(crate) proof fn lemma_first_index_none(s: Seq<char>, c: char)
    requires
        forall|j: int| 0 <= j < s.len() ==> s[j] != c,
    ensures
        first_index(s, c) == -1,
    decreases s.len(),
{
    if s.len() > 0 {
        assert forall|j: int| 0 <= j < s.len() - 1 implies s.drop_first()[j] != c by {
            assert(s.drop_first()[j] == s[j + 1]);
        }
        lemma_first_index_none(s.drop_first(), c);
    }
}

proof fn lemma_first_space_is(s: Seq<char>, i: int)
    requires
        0 <= i <= s.len(),
        i < s.len() ==> is_whitespace(s[i]),
        forall|j: int| 0 <= j < i ==> !is_whitespace(s[j]),
    ensures
        first_space(s) == i,
    decreases s.len(),
{
    if i > 0 {
        assert forall|j: int| 0 <= j < i - 1 implies !is_whitespace(s.drop_first()[j]) by {
            assert(s.drop_first()[j] == s[j + 1]);
        }
        lemma_first_space_is(s.drop_first(), i - 1);
    }
}

/// The executable path a stored registry value names.
pub fn registered_exe(stored: &str) -> (r: String)
    ensures
        r@ == registered_exe_spec(stored@),
{
    let t = trim_exec(&chars_of(stored));
    if t.len() > 0 && t[0] == '"' {
        let mut i: usize = 1;
        while i < t.len() && t[i] != '"'
            invariant
                1 <= i <= t@.len(),
                forall|j: int| 1 <= j < i ==> t@[j] != '"',
            decreases t.len() - i,
        {
            i = i + 1;
        }
        let ghost inner = t@.drop_first();
        if i < t.len() {
            proof {
                assert forall|j: int| 0 <= j < i - 1 implies inner[j] != '"' by {
                    assert(inner[j] == t@[j + 1]);
                }
                lemma_first_index_is(inner, '"', i - 1);
            }
            let mut v: Vec<char> = Vec::new();
            let mut k: usize = 1;
            while k < i
                invariant
                    1 <= k <= i < t@.len(),
                    v@ == t@.subrange(1, k as int),
                decreases i - k,
            {
                v.push(t[k]);
                k = k + 1;
                assert(v@ =~= t@.subrange(1, k as int));
            }
            assert(v@ =~= inner.take(i - 1));
            string_of(&v)
        } else {
            proof {
                assert forall|j: int| 0 <= j < inner.len() implies inner[j] != '"' by {
                    assert(inner[j] == t@[j + 1]);
                }
                lemma_first_index_none(inner, '"');
            }
            string_of(&t)
        }
    } else {
        let mut i: usize = 0;
        while i < t.len() && !is_whitespace_exec(t[i])
            invariant
                i <= t@.len(),
                forall|j: int| 0 <= j < i ==> !is_whitespace(t@[j]),
            decreases t.len() - i,
        {
            i = i + 1;
        }
        proof {
            lemma_first_space_is(t@, i as int);
        }
        let mut v: Vec<char> = Vec::new();
        let mut k: usize = 0;
        while k < i
            invariant
                k <= i <= t@.len(),
                v@ == t@.take(k as int),
            decreases i - k,
        {
            v.push(t[k]);
            k = k + 1;
            assert(v@ =~= t@.take(k as int));
        }
        string_of(&v)
    }
}

/// ASCII letters lower-cased; every other character kept.
pub open spec fn ascii_lower(c: char) -> char {
    if 'A' <= c <= 'Z' {
        ((c as u32) + 32) as char
    } else {
        c
    }
}

/// Equality ignoring ASCII case (`str::eq_ignore_ascii_case`).
pub open spec fn eq_ignore_ascii_case(a: Seq<char>, b: Seq<char>) -> bool {
    a.len() == b.len() && forall|i: int| 0 <= i < a.len() ==> ascii_lower(a[i]) == ascii_lower(b[i])
}

fn ascii_lower_exec(c: char) -> (r: char)
    ensures
        r == ascii_lower(c),
{
    if 'A' <= c && c <= 'Z' {
        let x: u32 = c as u32 + 32;
        let r = (x as u8) as char;
        assert(r == ascii_lower(c)) by {
            assert((x as u8) as char == x as char);
        }
        r
    } else {
        c
    }
}

/// Whether a stored registry value starts the running executable (paths
/// compared ignoring ASCII case).
pub fn autostart_points_to(stored: &str, current_exe: &str) -> (r: bool)
    ensures
        r == eq_ignore_ascii_case(registered_exe_spec(stored@), current_exe@),
{
    let e = registered_exe(stored);
    let a = chars_of(e.as_str());
    let b = chars_of(current_exe);
    if a.len() != b.len() {
        return false;
    }
    let mut i: usize = 0;
    while i < a.len()
        invariant
            i <= a@.len() == b@.len(),
            a@ == registered_exe_spec(stored@),
            b@ == current_exe@,
            forall|j: int| 0 <= j < i ==> ascii_lower(a@[j]) == ascii_lower(b@[j]),
        decreases a.len() - i,
    {
        if ascii_lower_exec(a[i]) != ascii_lower_exec(b[i]) {
            assert(ascii_lower(a@[i as int]) != ascii_lower(b@[i as int]));
            return false;
        }
        i = i + 1;
    }
    true
}

/// Whether start with the session is on, from what the registry gives:
/// `stored` is the program's value under the Run key (`None` when the key
/// or the value cannot be read) and `current_exe` the running
/// executable's path (`None` when it cannot be found). A value that names
/// another executable (left from an older install) counts as off; one
/// that cannot be compared with the running executable counts as on.
pub fn registry_autostart_enabled(stored: Option<&str>, current_exe: Option<&str>) -> (r: bool)
    ensures
        r == match stored {
            None => false,
            Some(s) => match current_exe {
                None => true,
                Some(c) => eq_ignore_ascii_case(registered_exe_spec(s@), c@),
            },
        },
{
    match stored {
        None => false,
        Some(s) => match current_exe {
            None => true,
            Some(c) => autostart_points_to(s, c),
        },
    }
}

} // verus!
