//! `primer init`: where the shims live, and the PATH line that shell
//! configuration files get.

use vstd::prelude::*;
use crate::config::{config_dir, home_or_tmp, join, join_v};
use crate::shim::{file_name, file_name_v};
use crate::text::{
    chars_of, contains, contains_str, copy_range, eq_str, is_sub, is_ws, lacks, lemma_sub_contains,
    opt_str_view, opt_view, to_string_v,
};

verus! {

/// The line that marks the block this tool adds to a shell configuration.
pub open spec fn marker() -> Seq<char> {
    "# motionstream"@
}

/// What is appended to a shell configuration: a blank line, the marker and
/// the PATH entry, in fish syntax for fish.
pub open spec fn path_addition(fish: bool) -> Seq<char> {
    if fish {
        "\n# motionstream\nfish_add_path \"$HOME/.primer/bin\"\n"@
    } else {
        "\n# motionstream\nexport PATH=\"$HOME/.primer/bin:$PATH\"\n"@
    }
}

/// The PATH entry line, in fish syntax for fish.
pub open spec fn path_line(fish: bool) -> Seq<char> {
    if fish {
        "fish_add_path \"$HOME/.primer/bin\""@
    } else {
        "export PATH=\"$HOME/.primer/bin:$PATH\""@
    }
}

/// The appended text is a blank line, the marker line and the PATH line,
/// each ended by a newline; neither line holds a newline or surrounding
/// whitespace.
pub proof fn lemma_addition_parts(fish: bool)
    ensures
        path_addition(fish) == seq!['\n'] + (marker() + seq!['\n']) + (path_line(fish) + seq!['\n']),
        marker().len() > 0,
        !is_ws(marker()[0]),
        !is_ws(marker().last()),
        lacks(marker(), '\n'),
        path_line(fish).len() > 0,
        path_line(fish).len() != marker().len(),
        !is_ws(path_line(fish)[0]),
        !is_ws(path_line(fish).last()),
        lacks(path_line(fish), '\n'),
{
    reveal_strlit("# motionstream");
    reveal_strlit("\n# motionstream\nfish_add_path \"$HOME/.primer/bin\"\n");
    reveal_strlit("\n# motionstream\nexport PATH=\"$HOME/.primer/bin:$PATH\"\n");
    reveal_strlit("fish_add_path \"$HOME/.primer/bin\"");
    reveal_strlit("export PATH=\"$HOME/.primer/bin:$PATH\"");
    assert(path_addition(fish) =~= seq!['\n'] + (marker() + seq!['\n']) + (path_line(fish) + seq![
        '\n',
    ]));
}

/// The appended text holds the marker.
pub proof fn lemma_marker_in_addition(c: Seq<char>, fish: bool)
    ensures
        is_sub(marker(), c + path_addition(fish)),
{
    lemma_addition_parts(fish);
    let s = c + path_addition(fish);
    let a: int = c.len() + 1int;
    assert(s.subrange(a, a + marker().len()) =~= marker());
}

/// Appending the PATH entry is idempotent: once appended, a second append
/// finds the marker and changes nothing.
pub proof fn law_append_is_idempotent(contents: Seq<char>, fish: bool, fish2: bool)
    requires
        append_result(contents, fish) is Some,
    ensures
        append_result(append_result(contents, fish)->0, fish2) is None,
{
    lemma_marker_in_addition(contents, fish);
    lemma_sub_contains(marker(), contents + path_addition(fish));
}

/// The shell configuration `contents` with the PATH entry appended, or
/// `None` when the marker is already there.
pub open spec fn append_result(contents: Seq<char>, fish: bool) -> Option<Seq<char>> {
    if contains(contents, marker()) {
        None
    } else {
        Some(contents + path_addition(fish))
    }
}

/// Appends the PATH entry to the shell configuration `contents` unless it
/// is already configured: the new contents, or `None` when the marker is
/// already present.
pub fn append_path_line(contents: &str, fish: bool) -> (r: Option<String>)
    ensures
        opt_view(r) == append_result(contents@, fish),
{
    let c = chars_of(contents);
    if contains_str(&c, "# motionstream") {
        return None;
    }
    let mut s = String::from_str(contents);
    if fish {
        s.append("\n# motionstream\nfish_add_path \"$HOME/.primer/bin\"\n");
    } else {
        s.append("\n# motionstream\nexport PATH=\"$HOME/.primer/bin:$PATH\"\n");
    }
    Some(s)
}

/// Index of the last `.` in `s`, if any.
pub open spec fn last_dot(s: Seq<char>) -> Option<nat>
    decreases s.len(),
{
    if s.len() == 0 {
        None
    } else if s.last() == '.' {
        Some((s.len() - 1) as nat)
    } else {
        last_dot(s.drop_last())
    }
}

/// The extension of the file name `name`, as `Path::extension`: what
/// follows its last `.`, unless that `.` begins the name.
pub open spec fn extension(name: Seq<char>) -> Option<Seq<char>> {
    match last_dot(name) {
        Some(k) => if k == 0 || name == ".."@ {
            None
        } else {
            Some(name.skip(k + 1 as int))
        },
        None => None,
    }
}

/// The extension of the final component of the path `path`.
pub open spec fn path_extension(path: Seq<char>) -> Option<Seq<char>> {
    match file_name(path) {
        Some(n) => extension(n),
        None => None,
    }
}

fn last_dot_v(s: &Vec<char>) -> (r: Option<usize>)
    ensures
        match r {
            Some(k) => last_dot(s@) == Some(k as nat) && k < s@.len(),
            None => last_dot(s@) is None,
        },
{
    let mut k = s.len();
    assert(s@.take(k as int) =~= s@);
    while k > 0
        invariant
            k <= s@.len(),
            last_dot(s@) == last_dot(s@.take(k as int)),
        decreases k,
    {
        if s[k - 1] == '.' {
            return Some(k - 1);
        }
        assert(s@.take(k as int).drop_last() =~= s@.take(k - 1));
        k = k - 1;
    }
    None
}

/// The extension of the final component of the path `path`.
pub fn extension_of(path: &str) -> (r: Option<String>)
    ensures
        opt_view(r) == path_extension(path@),
{
    let name = match file_name_v(&chars_of(path)) {
        Some(n) => n,
        None => return None,
    };
    match last_dot_v(&name) {
        Some(k) => {
            if k == 0 || eq_str(&name, "..") {
                None
            } else {
                let n = name.len();
                let e = copy_range(&name, k + 1, n);
                assert(e@ =~= name@.skip(k + 1 as int));
                Some(to_string_v(&e))
            }
        },
        None => None,
    }
}

/// Whether `path` is a fish configuration file (its extension is `fish`),
/// which gets fish syntax.
pub fn is_fish_config(path: &str) -> (r: bool)
    ensures
        r == (path_extension(path@) == Some("fish"@)),
{
    match extension_of(path) {
        Some(e) => eq_str(&chars_of(e.as_str()), "fish"),
        None => false,
    }
}

/// The shim directory `~/.primer/bin`, for the home directory `home`
/// (`/tmp` when unknown).
pub fn motionstream_bin_dir(home: Option<&str>) -> (r: String)
    ensures
        r@ == join(join(home_or_tmp(opt_str_view(home)), ".primer"@), "bin"@),
{
    let dir = config_dir(home);
    join_v(dir.as_str(), "bin")
}

} // verus!
