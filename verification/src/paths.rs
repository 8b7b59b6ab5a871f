//! Path names as text: the last component of a `/`-separated path, the
//! extension of a file name, and the directory names that scans skip.
use vstd::prelude::*;
use crate::settings::str_in;
use crate::text::{chars_eq, chars_of, split_char, split_exec, starts_with, string_of};

verus! {

/// The last component of the pieces of a path that is neither empty nor
/// `.` (the components that `Path` keeps), if any.
pub open spec fn last_piece(ps: Seq<Seq<char>>) -> Option<Seq<char>>
    decreases ps.len(),
{
    if ps.len() == 0 {
        None
    } else if ps.last().len() > 0 && ps.last() != "."@ {
        Some(ps.last())
    } else {
        last_piece(ps.drop_last())
    }
}

/// The file name of a `/`-separated path, as `Path::file_name` documents
/// it: the final component, unless the path ends in `..` or has none.
pub open spec fn file_name_spec(p: Seq<char>) -> Option<Seq<char>> {
    match last_piece(split_char(p, '/')) {
        Some(c) => if c == ".."@ {
            None
        } else {
            Some(c)
        },
        None => None,
    }
}

/// The file name of a path, or the whole path when it has none.
pub open spec fn display_name(p: Seq<char>) -> Seq<char> {
    match file_name_spec(p) {
        Some(n) => n,
        None => p,
    }
}

/// Index of the last `.` of `s`, or `-1`.
pub open spec fn last_dot(s: Seq<char>) -> int
    decreases s.len(),
{
    if s.len() == 0 {
        -1
    } else if s.last() == '.' {
        s.len() - 1
    } else {
        last_dot(s.drop_last())
    }
}

/// The extension of a file name, as `Path::extension` documents it: the
/// text after the last `.`, unless there is no `.` or the only one opens
/// the name.
pub open spec fn name_extension(name: Seq<char>) -> Option<Seq<char>> {
    let k = last_dot(name);
    if k <= 0 {
        None
    } else {
        Some(name.subrange(k + 1, name.len() as int))
    }
}

/// The extension of the file name of a path.
pub open spec fn extension_spec(p: Seq<char>) -> Option<Seq<char>> {
    match file_name_spec(p) {
        Some(n) => name_extension(n),
        None => None,
    }
}

/// Whether `v` is exactly one dot or exactly two dots.
fn is_dots(v: &[char], n: usize) -> (r: bool)
    requires
        n == 1 || n == 2,
    ensures
        n == 1 ==> (r == (v@ == "."@)),
        n == 2 ==> (r == (v@ == ".."@)),
{
    proof {
        reveal_strlit(".");
        reveal_strlit("..");
    }
    if v.len() != n {
        return false;
    }
    if v[0] != '.' {
        assert(v@[0] != "."@[0]);
        assert(v@[0] != ".."@[0]);
        return false;
    }
    if n == 2 && v[1] != '.' {
        assert(v@[1] != ".."@[1]);
        return false;
    }
    assert(n == 1 ==> v@ =~= "."@);
    assert(n == 2 ==> v@ =~= ".."@);
    true
}

/// The file name of a `/`-separated path (`Path::file_name` on Unix).
pub fn file_name_of(path: &str) -> (r: Option<String>)
    ensures
        match r {
            Some(n) => file_name_spec(path@) == Some(n@),
            None => file_name_spec(path@) is None,
        },
{
    let c = chars_of(path);
    let ps = split_exec(&c, '/');
    let ghost sp = split_char(c@, '/');
    let mut k: usize = ps.len();
    assert(sp.subrange(0, k as int) =~= sp);
    while k > 0
        invariant
            k <= ps@.len() == sp.len(),
            sp == split_char(path@, '/'),
            forall|q: int| 0 <= q < ps@.len() ==> (#[trigger] ps@[q])@ == sp[q],
            last_piece(sp) == last_piece(sp.subrange(0, k as int)),
        decreases k,
    {
        let piece = &ps[k - 1];
        assert(sp.subrange(0, k as int).last() == sp[k - 1]);
        if piece.len() > 0 && !is_dots(piece, 1) {
            if is_dots(piece, 2) {
                return None;
            }
            return Some(string_of(piece));
        }
        assert(sp.subrange(0, k as int).drop_last() =~= sp.subrange(0, k - 1));
        k = k - 1;
    }
    None
}

/// The file name of a path, or the path itself when it has none (how
/// folders and changed files are named in messages).
pub fn display_name_of(path: &str) -> (r: String)
    ensures
        r@ == display_name(path@),
{
    match file_name_of(path) {
        Some(n) => n,
        None => crate::text::owned(path),
    }
}

/// The extension of a file name (`Path::extension` applied to a name).
pub fn name_extension_of(name: &str) -> (r: Option<String>)
    ensures
        match r {
            Some(e) => name_extension(name@) == Some(e@),
            None => name_extension(name@) is None,
        },
{
    let c = chars_of(name);
    let mut k: usize = c.len();
    assert(c@.subrange(0, k as int) =~= c@);
    while k > 0 && c[k - 1] != '.'
        invariant
            k <= c@.len(),
            c@ == name@,
            last_dot(c@) == last_dot(c@.subrange(0, k as int)),
        decreases k,
    {
        assert(c@.subrange(0, k as int).drop_last() =~= c@.subrange(0, k - 1));
        k = k - 1;
    }
    if k <= 1 {
        return None;
    }
    let mut out: Vec<char> = Vec::new();
    let mut i: usize = k;
    while i < c.len()
        invariant
            k <= i <= c@.len(),
            out@ == c@.subrange(k as int, i as int),
        decreases c.len() - i,
    {
        out.push(c[i]);
        i = i + 1;
        assert(out@ =~= c@.subrange(k as int, i as int));
    }
    Some(string_of(&out))
}

/// The extension of the file name of a path (`Path::extension`).
pub fn extension_of(path: &str) -> (r: Option<String>)
    ensures
        match r {
            Some(e) => extension_spec(path@) == Some(e@),
            None => extension_spec(path@) is None,
        },
{
    match file_name_of(path) {
        Some(n) => name_extension_of(n.as_str()),
        None => None,
    }
}

// ---------------------------------------------------------------------
// Names that scans skip
// ---------------------------------------------------------------------

/// Directory and file names that scans never enter.
pub open spec fn skip_dirs() -> Seq<Seq<char>> {
    seq![
        ".git"@, ".svn"@, ".hg"@, "node_modules"@, "__pycache__"@, ".venv"@, "venv"@, ".cache"@,
        ".Trash"@, "target"@, "dist"@, "build"@, ".next"@, ".nuxt"@, "$Recycle.Bin"@,
        "System Volume Information"@, "Thumbs.db"@,
    ]
}

/// A walk skips an entry with this name: a listed name, or a hidden one.
pub open spec fn skipped(name: Seq<char>) -> bool {
    skip_dirs().contains(name) || starts_with(name, "."@)
}

/// Whether a scan skips an entry named `name`.
pub fn is_skipped(name: &str) -> (r: bool)
    ensures
        r == skipped(name@),
{
    let list = [
        ".git", ".svn", ".hg", "node_modules", "__pycache__", ".venv", "venv", ".cache", ".Trash",
        "target", "dist", "build", ".next", ".nuxt", "$Recycle.Bin", "System Volume Information",
        "Thumbs.db",
    ];
    assert(list@.map_values(|x: &str| x@) =~= skip_dirs());
    let listed = str_in(name, &list);
    let c = chars_of(name);
    proof {
        reveal_strlit(".");
    }
    let hidden = c.len() > 0 && c[0] == '.';
    proof {
        assert("."@ =~= seq!['.']);
        if c@.len() > 0 {
            assert(c@.subrange(0, 1) =~= seq![c@[0]]);
            if c@[0] == '.' {
                assert(c@.subrange(0, 1) =~= "."@);
            } else {
                assert(c@.subrange(0, 1)[0] != "."@[0]);
            }
        }
    }
    assert(hidden == starts_with(name@, "."@));
    listed || hidden
}

} // verus!
