//! Packages newly added by a staged manifest diff (`git diff --cached`),
//! for `requirements.txt`, `pyproject.toml`, `package.json`, `go.mod` and
//! `Cargo.toml`.

use vstd::prelude::*;
use crate::text::{
    char_pos, chars_of, copy_range, ends_with, ends_with_str, eq_str, extend_v, find, find_str, lemma_char_pos, lines, lines_v, lowercase, lowercase_v,
    next_token, next_token_v, opt_view, split_once, split_once_v, starts_with, starts_with_str,
    to_string_v, trim, trim_char, trim_char_v, trim_start, trim_start_char, trim_start_char_v,
    trim_start_v, trim_v, views, find_from, is_ws, lacks, lemma_lines_single, lemma_trim_clean,
    lemma_ws_pos, ws_pos, trim_end, lemma_find_after, lemma_single_token,
};

verus! {

/// A newly added package extracted from a staged manifest diff.
#[derive(Debug, PartialEq)]
pub struct NewPackage {
    pub name: String,
    pub version: Option<String>,
    pub ecosystem: String,
}

/// The mathematical value of a `NewPackage`.
pub struct Pkg {
    pub name: Seq<char>,
    pub version: Option<Seq<char>>,
    pub ecosystem: Seq<char>,
}

impl View for NewPackage {
    type V = Pkg;

    open spec fn view(&self) -> Pkg {
        Pkg { name: self.name@, version: opt_view(self.version), ecosystem: self.ecosystem@ }
    }
}

/// The views of a sequence of packages.
pub open spec fn pkg_views(s: Seq<NewPackage>) -> Seq<Pkg> {
    s.map_values(|p: NewPackage| p@)
}

/// A diff line that adds text: it starts with `+` and is not the `+++`
/// file header.
pub open spec fn is_added(l: Seq<char>) -> bool {
    l.len() > 0 && l[0] == '+' && !starts_with(l, "+++"@)
}

/// The text an added line adds, trimmed.
pub open spec fn added_text(l: Seq<char>) -> Seq<char> {
    trim(l.drop_first())
}

/// The trimmed text of `l` when `l` is an added line.
fn added_text_v(l: &Vec<char>) -> (r: Option<Vec<char>>)
    ensures
        match r {
            Some(t) => is_added(l@) && t@ == added_text(l@),
            None => !is_added(l@),
        },
{
    if l.len() > 0 && l[0] == '+' && !starts_with_str(l, "+++") {
        let body = copy_range(l, 1, l.len());
        assert(body@ =~= l@.drop_first());
        Some(trim_v(&body))
    } else {
        None
    }
}

// ---------------------------------------------------------------------------
// requirements.txt
// ---------------------------------------------------------------------------

/// One step of the search for the earliest version operator: `op` wins
/// when it occurs strictly before the best position found so far.
pub open spec fn split_step(s: Seq<char>, op: Seq<char>, best: (nat, nat)) -> (nat, nat) {
    match find(s, op) {
        Some(pos) => if pos < best.0 {
            (pos, op.len())
        } else {
            best
        },
        None => best,
    }
}

/// Position and length of the earliest version operator in `s`, trying
/// `==`, `>=`, `<=`, `~=`, `!=`, `>`, `<`, `@` in that order (an earlier
/// operator wins a tie); the length of `s` and 0 when there is none.
pub open spec fn requirement_split_point(s: Seq<char>) -> (nat, nat) {
    let b0 = (s.len(), 0nat);
    let b1 = split_step(s, "=="@, b0);
    let b2 = split_step(s, ">="@, b1);
    let b3 = split_step(s, "<="@, b2);
    let b4 = split_step(s, "~="@, b3);
    let b5 = split_step(s, "!="@, b4);
    let b6 = split_step(s, ">"@, b5);
    let b7 = split_step(s, "<"@, b6);
    split_step(s, "@"@, b7)
}

/// Splits `name==1.0` into the name and the version after the operator.
pub open spec fn split_requirement(s: Seq<char>) -> (Seq<char>, Option<Seq<char>>) {
    let (at, len) = requirement_split_point(s);
    if at == s.len() {
        (s, None)
    } else {
        (s.take(at as int), Some(s.skip((at + len) as int)))
    }
}

/// The package that one `requirements.txt` diff line adds.
pub open spec fn requirement_line(l: Seq<char>) -> Option<Pkg> {
    if !is_added(l) {
        None
    } else {
        let line = added_text(l);
        if line.len() == 0 || line[0] == '#' || line[0] == '-' {
            None
        } else {
            let (name, version) = split_requirement(line);
            Some(
                Pkg {
                    name: lowercase(trim(name)),
                    version: match version {
                        Some(v) => Some(trim(v)),
                        None => None,
                    },
                    ecosystem: "PyPI"@,
                },
            )
        }
    }
}

/// The packages that the `requirements.txt` diff lines `ls` add.
pub open spec fn requirements_from(ls: Seq<Seq<char>>) -> Seq<Pkg>
    decreases ls.len(),
{
    if ls.len() == 0 {
        seq![]
    } else {
        match requirement_line(ls[0]) {
            Some(p) => seq![p] + requirements_from(ls.drop_first()),
            None => requirements_from(ls.drop_first()),
        }
    }
}

fn split_step_v(s: &Vec<char>, op: &str, best: (usize, usize)) -> (r: (usize, usize))
    requires
        best.0 <= s@.len(),
        best.0 == s@.len() || best.0 + best.1 <= s@.len(),
    ensures
        r.0 <= s@.len(),
        r.0 == s@.len() || r.0 + r.1 <= s@.len(),
        (r.0 as nat, r.1 as nat) == split_step(s@, op@, (best.0 as nat, best.1 as nat)),
{
    match find_str(s, op) {
        Some(pos) => {
            if pos < best.0 {
                let opv = chars_of(op);
                (pos, opv.len())
            } else {
                best
            }
        },
        None => best,
    }
}

/// Splits `name==1.0` into the name and the version after the operator.
pub fn split_requirement_v(s: &Vec<char>) -> (r: (Vec<char>, Option<Vec<char>>))
    ensures
        (r.0@, match r.1 {
            Some(v) => Some(v@),
            None => None,
        }) == split_requirement(s@),
{
    let b = (s.len(), 0usize);
    let b = split_step_v(s, "==", b);
    let b = split_step_v(s, ">=", b);
    let b = split_step_v(s, "<=", b);
    let b = split_step_v(s, "~=", b);
    let b = split_step_v(s, "!=", b);
    let b = split_step_v(s, ">", b);
    let b = split_step_v(s, "<", b);
    let b = split_step_v(s, "@", b);
    if b.0 == s.len() {
        let all = copy_range(s, 0, s.len());
        assert(all@ =~= s@);
        (all, None)
    } else {
        let name = copy_range(s, 0, b.0);
        let version = copy_range(s, b.0 + b.1, s.len());
        assert(name@ =~= s@.take(b.0 as int));
        assert(version@ =~= s@.skip((b.0 + b.1) as int));
        (name, Some(version))
    }
}

fn requirement_line_v(l: &Vec<char>) -> (r: Option<NewPackage>)
    ensures
        match r {
            Some(p) => requirement_line(l@) == Some(p@),
            None => requirement_line(l@) is None,
        },
{
    let line = match added_text_v(l) {
        Some(t) => t,
        None => return None,
    };
    if line.len() == 0 || line[0] == '#' || line[0] == '-' {
        return None;
    }
    let (name, version) = split_requirement_v(&line);
    let name = lowercase_v(&trim_v(&name));
    let version = match version {
        Some(v) => Some(to_string_v(&trim_v(&v))),
        None => None,
    };
    Some(NewPackage { name: to_string_v(&name), version, ecosystem: String::from_str("PyPI") })
}

fn parse_requirements(ls: &Vec<Vec<char>>) -> (r: Vec<NewPackage>)
    ensures
        pkg_views(r@) == requirements_from(views(ls@)),
{
    let ghost lv = views(ls@);
    let mut out: Vec<NewPackage> = Vec::new();
    let n = ls.len();
    let mut i: usize = 0;
    assert(lv.skip(0) =~= lv);
    while i < n
        invariant
            i <= n,
            n == ls@.len(),
            lv == views(ls@),
            requirements_from(lv) == pkg_views(out@) + requirements_from(lv.skip(i as int)),
        decreases n - i,
    {
        let ghost rest = lv.skip(i as int);
        assert(rest[0] == ls@[i as int]@);
        assert(rest.drop_first() =~= lv.skip(i + 1));
        let ghost old_out = out@;
        match requirement_line_v(&ls[i]) {
            Some(p) => {
                out.push(p);
                assert(pkg_views(out@) =~= pkg_views(old_out).push(p@));
                assert(pkg_views(old_out) + (seq![p@] + requirements_from(lv.skip(i + 1)))
                    =~= pkg_views(out@) + requirements_from(lv.skip(i + 1)));
            },
            None => {},
        }
        i = i + 1;
    }
    assert(lv.skip(n as int) =~= Seq::<Seq<char>>::empty());
    assert(pkg_views(out@) + Seq::<Pkg>::empty() =~= pkg_views(out@));
    out
}


// ---------------------------------------------------------------------------
// package.json
// ---------------------------------------------------------------------------

/// `s` without its leading characters that are not ASCII digits, as
/// `str::trim_start_matches(|c| !c.is_ascii_digit())`.
pub open spec fn skip_non_digits(s: Seq<char>) -> Seq<char>
    decreases s.len(),
{
    if s.len() > 0 && !('0' <= s[0] && s[0] <= '9') {
        skip_non_digits(s.drop_first())
    } else {
        s
    }
}

/// Name and version of a `"name": "version"` line, the version without its
/// range prefix (`^`, `~`, `>=`, ...).
pub open spec fn json_dep_line(s: Seq<char>) -> Option<(Seq<char>, Seq<char>)> {
    if !(s.len() > 0 && s[0] == '"') {
        None
    } else {
        match split_once(s.drop_first(), '"') {
            None => None,
            Some((name, rest)) => {
                let r1 = trim_start(rest);
                if !(r1.len() > 0 && r1[0] == ':') {
                    None
                } else {
                    let r2 = trim_start(r1.drop_first());
                    if !(r2.len() > 0 && r2[0] == '"') {
                        None
                    } else {
                        match split_once(r2.drop_first(), '"') {
                            None => None,
                            Some((raw, _)) => Some((name, skip_non_digits(raw))),
                        }
                    }
                }
            },
        }
    }
}

/// The package that one `package.json` diff line adds.
pub open spec fn package_json_line(l: Seq<char>) -> Option<Pkg> {
    if !is_added(l) {
        None
    } else {
        match json_dep_line(added_text(l)) {
            Some((name, version)) => Some(
                Pkg { name, version: Some(version), ecosystem: "npm"@ },
            ),
            None => None,
        }
    }
}

/// Where a `package.json` diff line stands: not yet known (no enclosing
/// brace seen), the top-level object, a dependency block, or another block
/// `depth` braces deep.
pub enum JsonScope {
    Unknown,
    Top,
    Deps,
    Other(nat),
}

/// The key of a `"key": ...` line.
pub open spec fn json_key(t: Seq<char>) -> Option<Seq<char>> {
    if !(t.len() > 0 && t[0] == '"') {
        None
    } else {
        match split_once(t.drop_first(), '"') {
            None => None,
            Some((k, rest)) => {
                let r = trim_start(rest);
                if r.len() > 0 && r[0] == ':' {
                    Some(k)
                } else {
                    None
                }
            },
        }
    }
}

/// A block whose entries are dependencies.
pub open spec fn is_dependency_key(k: Seq<char>) -> bool {
    ||| k == "dependencies"@
    ||| k == "devDependencies"@
    ||| k == "peerDependencies"@
    ||| k == "optionalDependencies"@
}

/// The trimmed line opens an object: it ends in `{`.
pub open spec fn opens_object(t: Seq<char>) -> bool {
    t.len() > 0 && t.last() == '{'
}

/// The trimmed line closes an object: it starts with `}`.
pub open spec fn closes_object(t: Seq<char>) -> bool {
    t.len() > 0 && t[0] == '}'
}

/// The scope that the object-opening line `t` enters from the top level.
pub open spec fn block_scope(t: Seq<char>) -> JsonScope {
    match json_key(t) {
        Some(k) => if is_dependency_key(k) {
            JsonScope::Deps
        } else {
            JsonScope::Other(1)
        },
        None => JsonScope::Other(1),
    }
}

/// One `package.json` diff line read in scope `s`: the next scope and the
/// package the line adds, if any.  A hunk header makes the scope unknown;
/// added and unchanged lines move between blocks; only an added line in a
/// dependency block (or where no enclosing block is known) adds a package.
pub open spec fn json_step(s: JsonScope, l: Seq<char>) -> (JsonScope, Option<Pkg>) {
    if starts_with(l, "@@"@) {
        (JsonScope::Unknown, None)
    } else if !(l.len() > 0 && (l[0] == '+' || l[0] == ' ')) {
        (s, None)
    } else {
        let t = trim(l.drop_first());
        match s {
            JsonScope::Unknown => if t == "{"@ {
                (JsonScope::Top, None)
            } else if opens_object(t) && json_key(t) is Some {
                (block_scope(t), None)
            } else {
                (JsonScope::Unknown, package_json_line(l))
            },
            JsonScope::Top => if closes_object(t) {
                (JsonScope::Unknown, None)
            } else if opens_object(t) {
                (block_scope(t), None)
            } else {
                (JsonScope::Top, None)
            },
            JsonScope::Deps => if closes_object(t) {
                (JsonScope::Top, None)
            } else {
                (JsonScope::Deps, package_json_line(l))
            },
            JsonScope::Other(d) => if closes_object(t) {
                if d <= 1 {
                    (JsonScope::Top, None)
                } else {
                    (JsonScope::Other((d - 1) as nat), None)
                }
            } else if opens_object(t) {
                (JsonScope::Other(d + 1), None)
            } else {
                (JsonScope::Other(d), None)
            },
        }
    }
}

/// The packages that the `package.json` diff lines `ls` add, read from
/// scope `s`.
pub open spec fn package_json_from(ls: Seq<Seq<char>>, s: JsonScope) -> Seq<Pkg>
    decreases ls.len(),
{
    if ls.len() == 0 {
        seq![]
    } else {
        let (next, found) = json_step(s, ls[0]);
        match found {
            Some(p) => seq![p] + package_json_from(ls.drop_first(), next),
            None => package_json_from(ls.drop_first(), next),
        }
    }
}

/// The executable form of a `JsonScope`.
enum JsonState {
    Unknown,
    Top,
    Deps,
    Other(usize),
}

spec fn scope_of(s: JsonState) -> JsonScope {
    match s {
        JsonState::Unknown => JsonScope::Unknown,
        JsonState::Top => JsonScope::Top,
        JsonState::Deps => JsonScope::Deps,
        JsonState::Other(d) => JsonScope::Other(d as nat),
    }
}

spec fn state_depth(s: JsonState) -> nat {
    match s {
        JsonState::Other(d) => d as nat,
        _ => 0,
    }
}

fn json_key_v(t: &Vec<char>) -> (r: Option<Vec<char>>)
    ensures
        match r {
            Some(k) => json_key(t@) == Some(k@),
            None => json_key(t@) is None,
        },
{
    if !(t.len() > 0 && t[0] == '"') {
        return None;
    }
    match split_once_v(&drop_first_v(t), '"') {
        None => None,
        Some((k, rest)) => {
            let r = trim_start_v(&rest);
            if r.len() > 0 && r[0] == ':' {
                Some(k)
            } else {
                None
            }
        },
    }
}

fn block_state_v(t: &Vec<char>) -> (r: JsonState)
    ensures
        scope_of(r) == block_scope(t@),
        state_depth(r) <= 1,
{
    match json_key_v(t) {
        Some(k) => if eq_str(&k, "dependencies") || eq_str(&k, "devDependencies") || eq_str(
            &k,
            "peerDependencies",
        ) || eq_str(&k, "optionalDependencies") {
            JsonState::Deps
        } else {
            JsonState::Other(1)
        },
        None => JsonState::Other(1),
    }
}

fn json_step_v(s: JsonState, l: &Vec<char>, bound: usize) -> (r: (JsonState, Option<NewPackage>))
    requires
        state_depth(s) < bound,
    ensures
        (scope_of(r.0), match r.1 {
            Some(p) => Some(p@),
            None => None,
        }) == json_step(scope_of(s), l@),
        state_depth(r.0) <= state_depth(s) + 1,
{
    if starts_with_str(l, "@@") {
        return (JsonState::Unknown, None);
    }
    if !(l.len() > 0 && (l[0] == '+' || l[0] == ' ')) {
        return (s, None);
    }
    let t = trim_v(&drop_first_v(l));
    let opens = t.len() > 0 && t[t.len() - 1] == '{';
    let closes = t.len() > 0 && t[0] == '}';
    match s {
        JsonState::Unknown => {
            if eq_str(&t, "{") {
                (JsonState::Top, None)
            } else if opens && json_key_v(&t).is_some() {
                (block_state_v(&t), None)
            } else {
                (JsonState::Unknown, package_json_line_v(l))
            }
        },
        JsonState::Top => {
            if closes {
                (JsonState::Unknown, None)
            } else if opens {
                (block_state_v(&t), None)
            } else {
                (JsonState::Top, None)
            }
        },
        JsonState::Deps => {
            if closes {
                (JsonState::Top, None)
            } else {
                (JsonState::Deps, package_json_line_v(l))
            }
        },
        JsonState::Other(d) => {
            if closes {
                if d <= 1 {
                    (JsonState::Top, None)
                } else {
                    (JsonState::Other(d - 1), None)
                }
            } else if opens {
                (JsonState::Other(d + 1), None)
            } else {
                (JsonState::Other(d), None)
            }
        },
    }
}

fn skip_non_digits_v(s: &Vec<char>) -> (r: Vec<char>)
    ensures
        r@ == skip_non_digits(s@),
{
    let n = s.len();
    let mut lo: usize = 0;
    assert(s@.skip(0) =~= s@);
    while lo < n && !('0' <= s[lo] && s[lo] <= '9')
        invariant
            lo <= n,
            n == s@.len(),
            skip_non_digits(s@) == skip_non_digits(s@.skip(lo as int)),
        decreases n - lo,
    {
        assert(s@.skip(lo as int).drop_first() =~= s@.skip(lo + 1));
        lo = lo + 1;
    }
    copy_range(s, lo, n)
}

/// `s` without its first character.
fn drop_first_v(s: &Vec<char>) -> (r: Vec<char>)
    requires
        s@.len() > 0,
    ensures
        r@ == s@.drop_first(),
{
    let r = copy_range(s, 1, s.len());
    assert(r@ =~= s@.drop_first());
    r
}

/// Parses `"name": "version",` into the name and the bare version.
pub fn json_dep_line_v(s: &Vec<char>) -> (r: Option<(Vec<char>, Vec<char>)>)
    ensures
        match r {
            Some((a, b)) => json_dep_line(s@) == Some((a@, b@)),
            None => json_dep_line(s@) is None,
        },
{
    if !(s.len() > 0 && s[0] == '"') {
        return None;
    }
    let s1 = drop_first_v(s);
    let (name, rest) = match split_once_v(&s1, '"') {
        Some(p) => p,
        None => return None,
    };
    let r1 = trim_start_v(&rest);
    if !(r1.len() > 0 && r1[0] == ':') {
        return None;
    }
    let r2 = trim_start_v(&drop_first_v(&r1));
    if !(r2.len() > 0 && r2[0] == '"') {
        return None;
    }
    match split_once_v(&drop_first_v(&r2), '"') {
        Some((raw, _)) => Some((name, skip_non_digits_v(&raw))),
        None => None,
    }
}

fn package_json_line_v(l: &Vec<char>) -> (r: Option<NewPackage>)
    ensures
        match r {
            Some(p) => package_json_line(l@) == Some(p@),
            None => package_json_line(l@) is None,
        },
{
    let line = match added_text_v(l) {
        Some(t) => t,
        None => return None,
    };
    match json_dep_line_v(&line) {
        Some((name, version)) => Some(
            NewPackage {
                name: to_string_v(&name),
                version: Some(to_string_v(&version)),
                ecosystem: String::from_str("npm"),
            },
        ),
        None => None,
    }
}

fn parse_package_json(ls: &Vec<Vec<char>>) -> (r: Vec<NewPackage>)
    ensures
        pkg_views(r@) == package_json_from(views(ls@), JsonScope::Unknown),
{
    let ghost lv = views(ls@);
    let mut out: Vec<NewPackage> = Vec::new();
    let mut state = JsonState::Unknown;
    let n = ls.len();
    let mut i: usize = 0;
    assert(lv.skip(0) =~= lv);
    while i < n
        invariant
            i <= n,
            n == ls@.len(),
            lv == views(ls@),
            state_depth(state) <= i,
            package_json_from(lv, JsonScope::Unknown) == pkg_views(out@) + package_json_from(
                lv.skip(i as int),
                scope_of(state),
            ),
        decreases n - i,
    {
        let ghost rest = lv.skip(i as int);
        assert(rest[0] == ls@[i as int]@);
        assert(rest.drop_first() =~= lv.skip(i + 1));
        let ghost old_out = out@;
        let (next, found) = json_step_v(state, &ls[i], n);
        match found {
            Some(p) => {
                out.push(p);
                assert(pkg_views(out@) =~= pkg_views(old_out).push(p@));
                assert(pkg_views(old_out) + (seq![p@] + package_json_from(
                    lv.skip(i + 1),
                    scope_of(next),
                )) =~= pkg_views(out@) + package_json_from(lv.skip(i + 1), scope_of(next)));
            },
            None => {},
        }
        state = next;
        i = i + 1;
    }
    assert(lv.skip(n as int) =~= Seq::<Seq<char>>::empty());
    assert(pkg_views(out@) + Seq::<Pkg>::empty() =~= pkg_views(out@));
    out
}

// ---------------------------------------------------------------------------
// go.mod
// ---------------------------------------------------------------------------

/// The module line an added `go.mod` line holds: its `require` keyword
/// removed, when it starts with one.
pub open spec fn go_mod_body(l: Seq<char>) -> Seq<char> {
    let line = added_text(l);
    if starts_with(line, "require"@) {
        trim(line.skip("require"@.len() as int))
    } else {
        line
    }
}

/// A `go.mod` line that names no module: blank, a comment, the `go` or
/// `module` directive, or a parenthesis of a `require` block.
pub open spec fn go_mod_skipped(line: Seq<char>) -> bool {
    ||| line.len() == 0
    ||| starts_with(line, "//"@)
    ||| starts_with(line, "go "@)
    ||| starts_with(line, "module "@)
    ||| line == "("@
    ||| line == ")"@
}

/// The package that one `go.mod` diff line adds: the first token is the
/// module path, the second (without its leading `v`s) the version.
pub open spec fn go_mod_line(l: Seq<char>) -> Option<Pkg> {
    if !is_added(l) {
        None
    } else {
        let line = go_mod_body(l);
        if go_mod_skipped(line) {
            None
        } else {
            match next_token(line) {
                None => None,
                Some((name, rest)) => Some(
                    Pkg {
                        name,
                        version: match next_token(rest) {
                            Some((v, _)) => Some(trim_start_char(v, 'v')),
                            None => None,
                        },
                        ecosystem: "Go"@,
                    },
                ),
            }
        }
    }
}

/// The packages that the `go.mod` diff lines `ls` add.
pub open spec fn go_mod_from(ls: Seq<Seq<char>>) -> Seq<Pkg>
    decreases ls.len(),
{
    if ls.len() == 0 {
        seq![]
    } else {
        match go_mod_line(ls[0]) {
            Some(p) => seq![p] + go_mod_from(ls.drop_first()),
            None => go_mod_from(ls.drop_first()),
        }
    }
}

fn go_mod_line_v(l: &Vec<char>) -> (r: Option<NewPackage>)
    ensures
        match r {
            Some(p) => go_mod_line(l@) == Some(p@),
            None => go_mod_line(l@) is None,
        },
{
    let line0 = match added_text_v(l) {
        Some(t) => t,
        None => return None,
    };
    let line = if starts_with_str(&line0, "require") {
        let k = chars_of("require").len();
        let rest = copy_range(&line0, k, line0.len());
        assert(rest@ =~= line0@.skip("require"@.len() as int));
        trim_v(&rest)
    } else {
        line0
    };
    if line.len() == 0 || starts_with_str(&line, "//") || starts_with_str(&line, "go ")
        || starts_with_str(&line, "module ") || eq_str(&line, "(") || eq_str(&line, ")") {
        return None;
    }
    match next_token_v(&line) {
        None => None,
        Some((name, rest)) => {
            let version = match next_token_v(&rest) {
                Some((v, _)) => Some(to_string_v(&trim_start_char_v(&v, 'v'))),
                None => None,
            };
            Some(NewPackage { name: to_string_v(&name), version, ecosystem: String::from_str("Go") })
        },
    }
}

fn parse_go_mod(ls: &Vec<Vec<char>>) -> (r: Vec<NewPackage>)
    ensures
        pkg_views(r@) == go_mod_from(views(ls@)),
{
    let ghost lv = views(ls@);
    let mut out: Vec<NewPackage> = Vec::new();
    let n = ls.len();
    let mut i: usize = 0;
    assert(lv.skip(0) =~= lv);
    while i < n
        invariant
            i <= n,
            n == ls@.len(),
            lv == views(ls@),
            go_mod_from(lv) == pkg_views(out@) + go_mod_from(lv.skip(i as int)),
        decreases n - i,
    {
        let ghost rest = lv.skip(i as int);
        assert(rest[0] == ls@[i as int]@);
        assert(rest.drop_first() =~= lv.skip(i + 1));
        let ghost old_out = out@;
        match go_mod_line_v(&ls[i]) {
            Some(p) => {
                out.push(p);
                assert(pkg_views(out@) =~= pkg_views(old_out).push(p@));
                assert(pkg_views(old_out) + (seq![p@] + go_mod_from(lv.skip(i + 1)))
                    =~= pkg_views(out@) + go_mod_from(lv.skip(i + 1)));
            },
            None => {},
        }
        i = i + 1;
    }
    assert(lv.skip(n as int) =~= Seq::<Seq<char>>::empty());
    assert(pkg_views(out@) + Seq::<Pkg>::empty() =~= pkg_views(out@));
    out
}


// ---------------------------------------------------------------------------
// Cargo.toml
// ---------------------------------------------------------------------------

/// The version in a `{ version = "1.0", ... }` table: the quoted value after
/// the first `version` and an `=`.
pub open spec fn table_version(s: Seq<char>) -> Option<Seq<char>> {
    match find(s, "version"@) {
        None => None,
        Some(pos) => {
            let r1 = trim_start(s.skip((pos + "version"@.len()) as int));
            if !(r1.len() > 0 && r1[0] == '=') {
                None
            } else {
                let r2 = trim_start(r1.drop_first());
                if !(r2.len() > 0 && r2[0] == '"') {
                    None
                } else {
                    match split_once(r2.drop_first(), '"') {
                        Some((v, _)) => Some(v),
                        None => None,
                    }
                }
            }
        },
    }
}

/// Name and version of a `name = "1.0"` or `name = { version = "1.0" }`
/// dependency line.
pub open spec fn cargo_dep_line(s: Seq<char>) -> Option<(Seq<char>, Option<Seq<char>>)> {
    match split_once(s, '=') {
        None => None,
        Some((n, r)) => {
            let name = trim(n);
            let rest = trim(r);
            if name.len() == 0 || name[0] == '#' {
                None
            } else if rest.len() > 0 && rest[0] == '"' {
                Some((name, Some(trim_char(rest, '"'))))
            } else if rest.len() > 0 && rest[0] == '{' {
                Some((name, table_version(rest)))
            } else {
                None
            }
        },
    }
}

/// A section header that opens a dependency table.
pub open spec fn is_dependency_header(t: Seq<char>) -> bool {
    t == "[dependencies]"@ || t == "[dev-dependencies]"@ || t == "[build-dependencies]"@
}

/// One `Cargo.toml` diff line read in state `in_deps` (inside a dependency
/// table): the next state and the package the line adds, if any.  Added and
/// unchanged lines move between sections; only added lines add packages.
pub open spec fn cargo_step(in_deps: bool, l: Seq<char>) -> (bool, Option<Pkg>) {
    if !(l.len() > 0 && (l[0] == '+' || l[0] == ' ')) {
        (in_deps, None)
    } else {
        let t = trim(l.drop_first());
        if t.len() > 0 && t[0] == '[' {
            (is_dependency_header(t), None)
        } else if !in_deps || !is_added(l) {
            (in_deps, None)
        } else {
            (
                in_deps,
                match cargo_dep_line(t) {
                    Some((name, version)) => Some(Pkg { name, version, ecosystem: "crates.io"@ }),
                    None => None,
                },
            )
        }
    }
}

/// The packages that the `Cargo.toml` diff lines `ls` add, read from state
/// `in_deps`.
pub open spec fn cargo_from(ls: Seq<Seq<char>>, in_deps: bool) -> Seq<Pkg>
    decreases ls.len(),
{
    if ls.len() == 0 {
        seq![]
    } else {
        let (next, found) = cargo_step(in_deps, ls[0]);
        match found {
            Some(p) => seq![p] + cargo_from(ls.drop_first(), next),
            None => cargo_from(ls.drop_first(), next),
        }
    }
}

fn table_version_v(s: &Vec<char>) -> (r: Option<Vec<char>>)
    ensures
        match r {
            Some(v) => table_version(s@) == Some(v@),
            None => table_version(s@) is None,
        },
{
    let pos = match find_str(s, "version") {
        Some(p) => p,
        None => return None,
    };
    let k = chars_of("version").len();
    let n = s.len();
    assert(pos + k <= n);
    let after = copy_range(s, pos + k, n);
    assert(after@ =~= s@.skip((pos + "version"@.len()) as int));
    let r1 = trim_start_v(&after);
    if !(r1.len() > 0 && r1[0] == '=') {
        return None;
    }
    let r2 = trim_start_v(&drop_first_v(&r1));
    if !(r2.len() > 0 && r2[0] == '"') {
        return None;
    }
    match split_once_v(&drop_first_v(&r2), '"') {
        Some((v, _)) => Some(v),
        None => None,
    }
}

/// Parses `name = "1.0"` or `name = { version = "1.0", ... }`.
pub fn cargo_dep_line_v(s: &Vec<char>) -> (r: Option<(Vec<char>, Option<Vec<char>>)>)
    ensures
        match r {
            Some((a, b)) => cargo_dep_line(s@) == Some((
                a@,
                match b {
                    Some(v) => Some(v@),
                    None => None,
                },
            )),
            None => cargo_dep_line(s@) is None,
        },
{
    let (n, r) = match split_once_v(s, '=') {
        Some(p) => p,
        None => return None,
    };
    let name = trim_v(&n);
    let rest = trim_v(&r);
    if name.len() == 0 || name[0] == '#' {
        None
    } else if rest.len() > 0 && rest[0] == '"' {
        Some((name, Some(trim_char_v(&rest, '"'))))
    } else if rest.len() > 0 && rest[0] == '{' {
        Some((name, table_version_v(&rest)))
    } else {
        None
    }
}

fn cargo_step_v(in_deps: bool, l: &Vec<char>) -> (r: (bool, Option<NewPackage>))
    ensures
        (r.0, match r.1 {
            Some(p) => Some(p@),
            None => None,
        }) == cargo_step(in_deps, l@),
{
    if !(l.len() > 0 && (l[0] == '+' || l[0] == ' ')) {
        return (in_deps, None);
    }
    let t = trim_v(&drop_first_v(l));
    if t.len() > 0 && t[0] == '[' {
        let d = eq_str(&t, "[dependencies]") || eq_str(&t, "[dev-dependencies]") || eq_str(
            &t,
            "[build-dependencies]",
        );
        return (d, None);
    }
    if !in_deps || !(l[0] == '+' && !starts_with_str(l, "+++")) {
        return (in_deps, None);
    }
    match cargo_dep_line_v(&t) {
        Some((name, version)) => {
            let version = match version {
                Some(v) => Some(to_string_v(&v)),
                None => None,
            };
            (
                in_deps,
                Some(
                    NewPackage {
                        name: to_string_v(&name),
                        version,
                        ecosystem: String::from_str("crates.io"),
                    },
                ),
            )
        },
        None => (in_deps, None),
    }
}

fn parse_cargo_toml(ls: &Vec<Vec<char>>) -> (r: Vec<NewPackage>)
    ensures
        pkg_views(r@) == cargo_from(views(ls@), false),
{
    let ghost lv = views(ls@);
    let mut out: Vec<NewPackage> = Vec::new();
    let mut in_deps = false;
    let n = ls.len();
    let mut i: usize = 0;
    assert(lv.skip(0) =~= lv);
    while i < n
        invariant
            i <= n,
            n == ls@.len(),
            lv == views(ls@),
            cargo_from(lv, false) == pkg_views(out@) + cargo_from(lv.skip(i as int), in_deps),
        decreases n - i,
    {
        let ghost rest = lv.skip(i as int);
        assert(rest[0] == ls@[i as int]@);
        assert(rest.drop_first() =~= lv.skip(i + 1));
        let ghost old_out = out@;
        let (next, found) = cargo_step_v(in_deps, &ls[i]);
        match found {
            Some(p) => {
                out.push(p);
                assert(pkg_views(out@) =~= pkg_views(old_out).push(p@));
                assert(pkg_views(old_out) + (seq![p@] + cargo_from(lv.skip(i + 1), next))
                    =~= pkg_views(out@) + cargo_from(lv.skip(i + 1), next));
            },
            None => {},
        }
        in_deps = next;
        i = i + 1;
    }
    assert(lv.skip(n as int) =~= Seq::<Seq<char>>::empty());
    assert(pkg_views(out@) + Seq::<Pkg>::empty() =~= pkg_views(out@));
    out
}

// ---------------------------------------------------------------------------
// pyproject.toml
// ---------------------------------------------------------------------------

/// The table of `pyproject.toml` that a diff line stands in, as far as the
/// dependency lists go.
#[derive(Clone, Copy)]
pub enum PySection {
    /// `[project]`: its `dependencies = [...]` array.
    Project,
    /// `[project.optional-dependencies]` or `[dependency-groups]`: arrays
    /// of requirements under any key.
    Groups,
    /// A Poetry dependency table: `name = "version"` lines.
    Poetry,
    /// Any other table.
    Other,
}

/// The table that the header `t` opens.
pub open spec fn py_section(t: Seq<char>) -> PySection {
    if t == "[project]"@ {
        PySection::Project
    } else if t == "[project.optional-dependencies]"@ || t == "[dependency-groups]"@ {
        PySection::Groups
    } else if t == "[tool.poetry.dependencies]"@ || t == "[tool.poetry.dev-dependencies]"@ || (
    starts_with(t, "[tool.poetry.group."@) && ends_with(t, ".dependencies]"@)) {
        PySection::Poetry
    } else {
        PySection::Other
    }
}

/// The quoted strings of a TOML array, read from just inside its `[` (or
/// from the start of a continuation line), and whether its `]` was reached
/// on this line.  A `#` outside quotes ends the line.
pub open spec fn scan_array(s: Seq<char>) -> (Seq<Seq<char>>, bool)
    decreases s.len(),
{
    if s.len() == 0 {
        (seq![], false)
    } else if s[0] == ']' {
        (seq![], true)
    } else if s[0] == '#' {
        (seq![], false)
    } else if s[0] == '"' || s[0] == '\'' {
        let k = char_pos(s.drop_first(), s[0]);
        if k + 1 < s.len() {
            let rest = scan_array(s.skip(k + 2 as int));
            (seq![s.subrange(1, k + 1 as int)] + rest.0, rest.1)
        } else {
            (seq![], false)
        }
    } else {
        scan_array(s.drop_first())
    }
}

/// The package that the requirement string `item` (PEP 508) names: the
/// name before any extras, lower-cased, and the version after the first
/// operator; environment markers after `;` are dropped.
pub open spec fn requirement_item(item: Seq<char>) -> Option<Pkg> {
    let base = match split_once(item, ';') {
        Some((b, _)) => b,
        None => item,
    };
    let (raw, version) = split_requirement(trim(base));
    let name = match split_once(raw, '[') {
        Some((n, _)) => n,
        None => raw,
    };
    if trim(name).len() == 0 {
        None
    } else {
        Some(
            Pkg {
                name: lowercase(trim(name)),
                version: match version {
                    Some(v) => Some(trim(v)),
                    None => None,
                },
                ecosystem: "PyPI"@,
            },
        )
    }
}

/// The packages that the requirement strings `items` name.
pub open spec fn items_pkgs(items: Seq<Seq<char>>) -> Seq<Pkg>
    decreases items.len(),
{
    if items.len() == 0 {
        seq![]
    } else {
        match requirement_item(items[0]) {
            Some(p) => seq![p] + items_pkgs(items.drop_first()),
            None => items_pkgs(items.drop_first()),
        }
    }
}

/// What follows the `[` of a dependency array that the line `t` opens in
/// table `sec`: `dependencies = [` in `[project]`, any `key = [` in a
/// table of groups.
pub open spec fn array_start(sec: PySection, t: Seq<char>) -> Option<Seq<char>> {
    match split_once(t, '=') {
        None => None,
        Some((k, v)) => {
            let val = trim(v);
            let opens = match sec {
                PySection::Project => trim(k) == "dependencies"@,
                PySection::Groups => trim(k).len() > 0,
                _ => false,
            };
            if opens && val.len() > 0 && val[0] == '[' {
                Some(val.drop_first())
            } else {
                None
            }
        },
    }
}

/// The package that a Poetry dependency line adds; `python` is the
/// interpreter, not a package.
pub open spec fn poetry_dep(t: Seq<char>) -> Option<Pkg> {
    match cargo_dep_line(t) {
        None => None,
        Some((name, version)) => if name == "python"@ {
            None
        } else {
            Some(Pkg { name: lowercase(name), version, ecosystem: "PyPI"@ })
        },
    }
}

/// The packages of the array items `items` when the line is added.
pub open spec fn if_added(l: Seq<char>, items: Seq<Seq<char>>) -> Seq<Pkg> {
    if is_added(l) {
        items_pkgs(items)
    } else {
        seq![]
    }
}

/// One `pyproject.toml` diff line read in table `sec`, inside an open
/// dependency array or not: the next table, whether an array is still
/// open, and the packages the line adds.  Added and unchanged lines move
/// between tables and arrays; only added lines add packages.
pub open spec fn py_step(sec: PySection, in_array: bool, l: Seq<char>) -> (
    PySection,
    bool,
    Seq<Pkg>,
) {
    if !(l.len() > 0 && (l[0] == '+' || l[0] == ' ')) {
        (sec, in_array, seq![])
    } else {
        let t = trim(l.drop_first());
        if in_array {
            let (items, closed) = scan_array(t);
            (sec, !closed, if_added(l, items))
        } else if t.len() > 0 && t[0] == '[' {
            (py_section(t), false, seq![])
        } else {
            match sec {
                PySection::Poetry => (
                    sec,
                    false,
                    if is_added(l) {
                        match poetry_dep(t) {
                            Some(p) => seq![p],
                            None => seq![],
                        }
                    } else {
                        seq![]
                    },
                ),
                _ => match array_start(sec, t) {
                    Some(rest) => {
                        let (items, closed) = scan_array(rest);
                        (sec, !closed, if_added(l, items))
                    },
                    None => (sec, false, seq![]),
                },
            }
        }
    }
}

/// The packages that the `pyproject.toml` diff lines `ls` add, read from
/// table `sec` with an array open or not.
pub open spec fn pyproject_from(ls: Seq<Seq<char>>, sec: PySection, in_array: bool) -> Seq<Pkg>
    decreases ls.len(),
{
    if ls.len() == 0 {
        seq![]
    } else {
        let (sec2, arr2, found) = py_step(sec, in_array, ls[0]);
        found + pyproject_from(ls.drop_first(), sec2, arr2)
    }
}

fn py_section_v(t: &Vec<char>) -> (r: PySection)
    ensures
        r == py_section(t@),
{
    if eq_str(t, "[project]") {
        PySection::Project
    } else if eq_str(t, "[project.optional-dependencies]") || eq_str(t, "[dependency-groups]") {
        PySection::Groups
    } else if eq_str(t, "[tool.poetry.dependencies]") || eq_str(t, "[tool.poetry.dev-dependencies]")
        || (starts_with_str(t, "[tool.poetry.group.") && ends_with_str(t, ".dependencies]")) {
        PySection::Poetry
    } else {
        PySection::Other
    }
}

/// The quoted strings of a TOML array line and whether it closes the array.
fn scan_array_v(s: &Vec<char>) -> (r: (Vec<Vec<char>>, bool))
    ensures
        (views(r.0@), r.1) == scan_array(s@),
{
    let n = s.len();
    let mut out: Vec<Vec<char>> = Vec::new();
    let mut i: usize = 0;
    assert(s@.skip(0) =~= s@);
    while i < n
        invariant
            i <= n,
            n == s@.len(),
            scan_array(s@) == (views(out@) + scan_array(s@.skip(i as int)).0, scan_array(
                s@.skip(i as int),
            ).1),
        decreases n - i,
    {
        let ghost rest = s@.skip(i as int);
        let c = s[i];
        assert(rest[0] == c);
        if c == ']' {
            return (out, true);
        }
        if c == '#' {
            assert(views(out@) + Seq::<Seq<char>>::empty() =~= views(out@));
            return (out, false);
        }
        if c == '"' || c == '\'' {
            let mut j: usize = i + 1;
            while j < n && s[j] != c
                invariant
                    i < j <= n,
                    n == s@.len(),
                    c == s@[i as int],
                    forall|m: int| i < m < j ==> s@[m] != c,
                decreases n - j,
            {
                j = j + 1;
            }
            proof {
                let d = rest.drop_first();
                assert forall|m: int| 0 <= m < j - i - 1 implies #[trigger] d[m] != c by {
                    assert(d[m] == s@[i + 1 + m]);
                }
                if j < n {
                    assert(d[j - i - 1] == s@[j as int]);
                }
                lemma_char_pos(d, c, j - i - 1);
            }
            if j == n {
                assert(views(out@) + Seq::<Seq<char>>::empty() =~= views(out@));
                return (out, false);
            }
            let item = copy_range(s, i + 1, j);
            let ghost old_out = out@;
            out.push(item);
            assert(rest.subrange(1, j - i) =~= item@);
            assert(rest.skip(j - i + 1) =~= s@.skip(j + 1));
            assert(views(out@) =~= views(old_out).push(item@));
            assert(views(old_out) + (seq![item@] + scan_array(s@.skip(j + 1)).0) =~= views(out@)
                + scan_array(s@.skip(j + 1)).0);
            i = j + 1;
        } else {
            assert(rest.drop_first() =~= s@.skip(i + 1));
            i = i + 1;
        }
    }
    assert(s@.skip(n as int) =~= Seq::<char>::empty());
    assert(views(out@) + Seq::<Seq<char>>::empty() =~= views(out@));
    (out, false)
}

fn requirement_item_v(item: &Vec<char>) -> (r: Option<NewPackage>)
    ensures
        match r {
            Some(p) => requirement_item(item@) == Some(p@),
            None => requirement_item(item@) is None,
        },
{
    let base = match split_once_v(item, ';') {
        Some((b, _)) => b,
        None => copy_range(item, 0, item.len()),
    };
    assert(split_once(item@, ';') is None ==> base@ =~= item@);
    let (raw, version) = split_requirement_v(&trim_v(&base));
    let name = match split_once_v(&raw, '[') {
        Some((n, _)) => n,
        None => raw,
    };
    let name = trim_v(&name);
    if name.len() == 0 {
        return None;
    }
    let version = match version {
        Some(v) => Some(to_string_v(&trim_v(&v))),
        None => None,
    };
    Some(
        NewPackage {
            name: to_string_v(&lowercase_v(&name)),
            version,
            ecosystem: String::from_str("PyPI"),
        },
    )
}

/// Appends to `out` the packages that `items` name when `added`.
fn push_items(out: &mut Vec<NewPackage>, items: &Vec<Vec<char>>, added: bool)
    ensures
        pkg_views(final(out)@) == pkg_views(old(out)@) + (if added {
            items_pkgs(views(items@))
        } else {
            seq![]
        }),
{
    if !added {
        assert(pkg_views(out@) + Seq::<Pkg>::empty() =~= pkg_views(out@));
        return;
    }
    let ghost iv = views(items@);
    let ghost start = pkg_views(out@);
    let n = items.len();
    let mut i: usize = 0;
    assert(iv.skip(0) =~= iv);
    while i < n
        invariant
            i <= n,
            n == items@.len(),
            iv == views(items@),
            start + items_pkgs(iv) == pkg_views(out@) + items_pkgs(iv.skip(i as int)),
        decreases n - i,
    {
        let ghost rest = iv.skip(i as int);
        assert(rest[0] == items@[i as int]@);
        assert(rest.drop_first() =~= iv.skip(i + 1));
        let ghost old_out = out@;
        match requirement_item_v(&items[i]) {
            Some(p) => {
                out.push(p);
                assert(pkg_views(out@) =~= pkg_views(old_out).push(p@));
                assert(pkg_views(old_out) + (seq![p@] + items_pkgs(iv.skip(i + 1)))
                    =~= pkg_views(out@) + items_pkgs(iv.skip(i + 1)));
            },
            None => {},
        }
        i = i + 1;
    }
    assert(iv.skip(n as int) =~= Seq::<Seq<char>>::empty());
    assert(pkg_views(out@) + Seq::<Pkg>::empty() =~= pkg_views(out@));
}

fn array_start_v(sec: PySection, t: &Vec<char>) -> (r: Option<Vec<char>>)
    ensures
        match r {
            Some(v) => array_start(sec, t@) == Some(v@),
            None => array_start(sec, t@) is None,
        },
{
    let (k, v) = match split_once_v(t, '=') {
        Some(p) => p,
        None => return None,
    };
    let val = trim_v(&v);
    let key = trim_v(&k);
    let opens = match sec {
        PySection::Project => eq_str(&key, "dependencies"),
        PySection::Groups => key.len() > 0,
        _ => false,
    };
    if opens && val.len() > 0 && val[0] == '[' {
        Some(drop_first_v(&val))
    } else {
        None
    }
}

fn poetry_dep_v(t: &Vec<char>) -> (r: Option<NewPackage>)
    ensures
        match r {
            Some(p) => poetry_dep(t@) == Some(p@),
            None => poetry_dep(t@) is None,
        },
{
    match cargo_dep_line_v(t) {
        None => None,
        Some((name, version)) => {
            if eq_str(&name, "python") {
                None
            } else {
                let version = match version {
                    Some(v) => Some(to_string_v(&v)),
                    None => None,
                };
                Some(
                    NewPackage {
                        name: to_string_v(&lowercase_v(&name)),
                        version,
                        ecosystem: String::from_str("PyPI"),
                    },
                )
            }
        },
    }
}

fn py_step_v(sec: PySection, in_array: bool, l: &Vec<char>, out: &mut Vec<NewPackage>) -> (r: (
    PySection,
    bool,
))
    ensures
        (r.0, r.1) == (py_step(sec, in_array, l@).0, py_step(sec, in_array, l@).1),
        pkg_views(final(out)@) == pkg_views(old(out)@) + py_step(sec, in_array, l@).2,
{
    if !(l.len() > 0 && (l[0] == '+' || l[0] == ' ')) {
        assert(pkg_views(out@) + Seq::<Pkg>::empty() =~= pkg_views(out@));
        return (sec, in_array);
    }
    let t = trim_v(&drop_first_v(l));
    let added = l[0] == '+' && !starts_with_str(l, "+++");
    if in_array {
        let (items, closed) = scan_array_v(&t);
        push_items(out, &items, added);
        return (sec, !closed);
    }
    if t.len() > 0 && t[0] == '[' {
        assert(pkg_views(out@) + Seq::<Pkg>::empty() =~= pkg_views(out@));
        return (py_section_v(&t), false);
    }
    match sec {
        PySection::Poetry => {
            if added {
                match poetry_dep_v(&t) {
                    Some(p) => {
                        let ghost old_out = out@;
                        out.push(p);
                        assert(pkg_views(out@) =~= pkg_views(old_out) + seq![p@]);
                    },
                    None => {
                        assert(pkg_views(out@) + Seq::<Pkg>::empty() =~= pkg_views(out@));
                    },
                }
            } else {
                assert(pkg_views(out@) + Seq::<Pkg>::empty() =~= pkg_views(out@));
            }
            (sec, false)
        },
        _ => match array_start_v(sec, &t) {
            Some(rest) => {
                let (items, closed) = scan_array_v(&rest);
                push_items(out, &items, added);
                (sec, !closed)
            },
            None => {
                assert(pkg_views(out@) + Seq::<Pkg>::empty() =~= pkg_views(out@));
                (sec, false)
            },
        },
    }
}

#[verifier::spinoff_prover]
#[verifier::rlimit(30)]
fn parse_pyproject(ls: &Vec<Vec<char>>) -> (r: Vec<NewPackage>)
    ensures
        pkg_views(r@) == pyproject_from(views(ls@), PySection::Other, false),
{
    let ghost lv = views(ls@);
    let mut out: Vec<NewPackage> = Vec::new();
    let mut sec = PySection::Other;
    let mut in_array = false;
    let n = ls.len();
    let mut i: usize = 0;
    assert(lv.skip(0) =~= lv);
    while i < n
        invariant
            i <= n,
            n == ls@.len(),
            lv == views(ls@),
            pyproject_from(lv, PySection::Other, false) == pkg_views(out@) + pyproject_from(
                lv.skip(i as int),
                sec,
                in_array,
            ),
        decreases n - i,
    {
        let ghost rest = lv.skip(i as int);
        assert(rest[0] == ls@[i as int]@);
        assert(rest.drop_first() =~= lv.skip(i + 1));
        let ghost old_out = out@;
        let ghost step = py_step(sec, in_array, lv[i as int]);
        let (s2, a2) = py_step_v(sec, in_array, &ls[i], &mut out);
        assert(pkg_views(old_out) + (step.2 + pyproject_from(lv.skip(i + 1), s2, a2))
            =~= pkg_views(out@) + pyproject_from(lv.skip(i + 1), s2, a2));
        sec = s2;
        in_array = a2;
        i = i + 1;
    }
    assert(lv.skip(n as int) =~= Seq::<Seq<char>>::empty());
    assert(pkg_views(out@) + Seq::<Pkg>::empty() =~= pkg_views(out@));
    out
}

// ---------------------------------------------------------------------------
// Dispatch
// ---------------------------------------------------------------------------

/// The packages that the diff lines `ls` of the manifest `filename` add;
/// none for a file that is not a monitored manifest.
pub open spec fn parse_lines_spec(filename: Seq<char>, ls: Seq<Seq<char>>) -> Seq<Pkg> {
    if filename == "requirements.txt"@ {
        requirements_from(ls)
    } else if filename == "package.json"@ {
        package_json_from(ls, JsonScope::Unknown)
    } else if filename == "go.mod"@ {
        go_mod_from(ls)
    } else if filename == "Cargo.toml"@ {
        cargo_from(ls, false)
    } else if filename == "pyproject.toml"@ {
        pyproject_from(ls, PySection::Other, false)
    } else {
        seq![]
    }
}

/// The packages that the diff `diff` of the manifest `filename` adds;
/// none for a file that is not a monitored manifest.
pub open spec fn parse_diff_spec(filename: Seq<char>, diff: Seq<char>) -> Seq<Pkg> {
    parse_lines_spec(filename, lines(diff))
}

fn parse_lines(filename: &str, ls: &Vec<Vec<char>>) -> (r: Vec<NewPackage>)
    ensures
        pkg_views(r@) == parse_lines_spec(filename@, views(ls@)),
{
    let f = chars_of(filename);
    if eq_str(&f, "requirements.txt") {
        parse_requirements(ls)
    } else if eq_str(&f, "package.json") {
        parse_package_json(ls)
    } else if eq_str(&f, "go.mod") {
        parse_go_mod(ls)
    } else if eq_str(&f, "Cargo.toml") {
        parse_cargo_toml(ls)
    } else if eq_str(&f, "pyproject.toml") {
        parse_pyproject(ls)
    } else {
        let r: Vec<NewPackage> = Vec::new();
        assert(pkg_views(r@) =~= Seq::<Pkg>::empty());
        r
    }
}

/// Parses `git diff --cached` output for a single manifest file and returns
/// the packages it newly adds (lines beginning with `+` that are not the
/// diff header).
pub fn parse_diff(filename: &str, diff_text: &str) -> (r: Vec<NewPackage>)
    ensures
        pkg_views(r@) == parse_diff_spec(filename@, diff_text@),
{
    let ls = lines_v(&chars_of(diff_text));
    parse_lines(filename, &ls)
}

/// The lines `ls`, each marked as added.
pub open spec fn as_added(ls: Seq<Seq<char>>) -> Seq<Seq<char>> {
    ls.map_values(|l: Seq<char>| seq!['+'] + l)
}

/// The packages that the manifest `filename` with the text `contents`
/// declares: every line read as if the whole file were being added.
pub open spec fn manifest_spec(filename: Seq<char>, contents: Seq<char>) -> Seq<Pkg> {
    parse_lines_spec(filename, as_added(lines(contents)))
}

/// Reading a whole manifest treats each of its lines as an added diff
/// line: the packages are those that the diff made of `+` followed by each
/// line of the file, in order, adds; whatever the line holds (leading tabs
/// or spaces included).
pub proof fn law_manifest_reads_every_line_as_added(
    filename: Seq<char>,
    contents: Seq<char>,
    added: Seq<Seq<char>>,
)
    requires
        added.len() == lines(contents).len(),
        forall|i: int| 0 <= i < added.len() ==> #[trigger] added[i] == seq!['+'] + lines(contents)[i],
    ensures
        manifest_spec(filename, contents) == parse_lines_spec(filename, added),
{
    assert(added =~= as_added(lines(contents)));
}

/// The packages that the manifest `filename`, whose text is `contents`,
/// declares, for scanning before a bare restore command.
pub fn manifest_packages(filename: &str, contents: &str) -> (r: Vec<NewPackage>)
    ensures
        pkg_views(r@) == manifest_spec(filename@, contents@),
{
    let ls = lines_v(&chars_of(contents));
    let mut added: Vec<Vec<char>> = Vec::new();
    let n = ls.len();
    let mut i: usize = 0;
    while i < n
        invariant
            i <= n,
            n == ls@.len(),
            views(added@) == as_added(views(ls@)).take(i as int),
        decreases n - i,
    {
        let mut l: Vec<char> = Vec::new();
        l.push('+');
        extend_v(&mut l, &ls[i]);
        assert(l@ =~= seq!['+'] + ls@[i as int]@);
        let ghost old_added = added@;
        added.push(l);
        assert(views(ls@)[i as int] == ls@[i as int]@);
        assert(as_added(views(ls@))[i as int] == seq!['+'] + views(ls@)[i as int]);
        assert(views(added@) =~= views(old_added).push(l@));
        assert(views(added@) =~= as_added(views(ls@)).take(i + 1));
        i = i + 1;
    }
    assert(as_added(views(ls@)).take(n as int) =~= as_added(views(ls@)));
    parse_lines(filename, &added)
}


// ---------------------------------------------------------------------------
// Laws
// ---------------------------------------------------------------------------

/// A character that can start a version operator.
pub open spec fn is_operator_char(c: char) -> bool {
    c == '=' || c == '<' || c == '>' || c == '!' || c == '~' || c == '@'
}

/// A version operator of a requirement line.
pub open spec fn is_version_operator(op: Seq<char>) -> bool {
    ||| op == "=="@
    ||| op == ">="@
    ||| op == "<="@
    ||| op == "~="@
    ||| op == "!="@
    ||| op == ">"@
    ||| op == "<"@
    ||| op == "@"@
}

proof fn lemma_operator_occurrence(s: Seq<char>, n: nat, op: Seq<char>, q: Seq<char>)
    requires
        q.len() > 0,
        is_operator_char(q[0]),
        n + op.len() <= s.len(),
        s.subrange(n as int, (n + op.len()) as int) == op,
        forall|j: int| 0 <= j < n ==> !is_operator_char(#[trigger] s[j]),
    ensures
        (n + q.len() <= s.len() && s.subrange(n as int, (n + q.len()) as int) == q) ==> find(s, q)
            == Some(n),
        !(n + q.len() <= s.len() && s.subrange(n as int, (n + q.len()) as int) == q) ==> (find(s, q)
            is None || find(s, q)->0 > n),
{
    assert forall|j: int| 0 <= j < n implies #[trigger] s[j] != q[0] by {
        assert(!is_operator_char(s[j]));
    }
    lemma_find_after(s, q, n);
}

/// Whether `q` occurs at `n` in `s`, and where `find` meets it.
proof fn lemma_occurrence(s: Seq<char>, n: nat, op: Seq<char>, q: Seq<char>)
    requires
        q.len() > 0,
        is_operator_char(q[0]),
        n + op.len() <= s.len(),
        op.len() > 0,
        s.subrange(n as int, (n + op.len()) as int) == op,
        forall|j: int| 0 <= j < n ==> !is_operator_char(#[trigger] s[j]),
    ensures
        (n + q.len() <= s.len() && s.subrange(n as int, (n + q.len()) as int) == q) ==> find(s, q)
            == Some(n),
        !(n + q.len() <= s.len() && s.subrange(n as int, (n + q.len()) as int) == q) ==> (find(s, q)
            is None || find(s, q)->0 > n),
        (n + q.len() <= s.len() && s.subrange(n as int, (n + q.len()) as int) == q) ==> (forall|
            k: int,
        | 0 <= k < q.len() ==> s[n + k] == #[trigger] q[k]),
        s[n as int] == op[0],
{
    lemma_operator_occurrence(s, n, op, q);
    assert(s.subrange(n as int, (n + op.len()) as int)[0] == s[n as int]);
    if n + q.len() <= s.len() && s.subrange(n as int, (n + q.len()) as int) == q {
        assert forall|k: int| 0 <= k < q.len() implies s[n + k] == #[trigger] q[k] by {
            assert(s.subrange(n as int, (n + q.len()) as int)[k] == s[n + k]);
        }
    }
}

/// One step of the operator search, seen from the position `n` where the
/// first operator stands: an operator that does not occur at `n` keeps
/// the best position after `n` (or at it), one that does moves it to `n`
/// unless an earlier operator is already there.
proof fn lemma_step(s: Seq<char>, q: Seq<char>, best: (nat, nat), n: nat, hit: bool)
    requires
        hit ==> find(s, q) == Some(n),
        !hit ==> (find(s, q) is None || find(s, q)->0 > n),
        best.0 >= n,
    ensures
        split_step(s, q, best).0 >= n,
        !hit && best.0 > n ==> split_step(s, q, best).0 > n,
        best.0 == n ==> split_step(s, q, best) == best,
        hit && best.0 > n ==> split_step(s, q, best) == (n, q.len()),
{
}

/// The requirement text `name`, an operator and `version`, split at the
/// end of `name` with the operator's length.
proof fn lemma_requirement_split_point(name: Seq<char>, op: Seq<char>, version: Seq<char>)
    requires
        is_version_operator(op),
        forall|j: int| 0 <= j < name.len() ==> !is_operator_char(#[trigger] name[j]),
        !(version.len() > 0 && version[0] == '='),
    ensures
        requirement_split_point(name + op + version) == (name.len(), op.len()),
{
    reveal_strlit("==");
    reveal_strlit(">=");
    reveal_strlit("<=");
    reveal_strlit("~=");
    reveal_strlit("!=");
    reveal_strlit(">");
    reveal_strlit("<");
    reveal_strlit("@");
    let s = name + op + version;
    let n = name.len();
    assert(s.subrange(n as int, (n + op.len()) as int) =~= op);
    assert forall|j: int| 0 <= j < n implies !is_operator_char(#[trigger] s[j]) by {
        assert(s[j] == name[j]);
    }
    if op.len() == 1 && version.len() > 0 {
        assert(s[n + 1 as int] == version[0]);
    }
    if op.len() == 2 {
        assert(s[n + 1 as int] == op[1]);
    }
    lemma_occurrence(s, n, op, "=="@);
    lemma_occurrence(s, n, op, ">="@);
    lemma_occurrence(s, n, op, "<="@);
    lemma_occurrence(s, n, op, "~="@);
    lemma_occurrence(s, n, op, "!="@);
    lemma_occurrence(s, n, op, ">"@);
    lemma_occurrence(s, n, op, "<"@);
    lemma_occurrence(s, n, op, "@"@);
    if op == "=="@ {
        let b0 = (s.len(), 0nat);
        lemma_step(s, "=="@, b0, n, true);
        let b1 = split_step(s, "=="@, b0);
        lemma_step(s, ">="@, b1, n, false);
        let b2 = split_step(s, ">="@, b1);
        lemma_step(s, "<="@, b2, n, false);
        let b3 = split_step(s, "<="@, b2);
        lemma_step(s, "~="@, b3, n, false);
        let b4 = split_step(s, "~="@, b3);
        lemma_step(s, "!="@, b4, n, false);
        let b5 = split_step(s, "!="@, b4);
        lemma_step(s, ">"@, b5, n, false);
        let b6 = split_step(s, ">"@, b5);
        lemma_step(s, "<"@, b6, n, false);
        let b7 = split_step(s, "<"@, b6);
        lemma_step(s, "@"@, b7, n, false);
        let b8 = split_step(s, "@"@, b7);
    } else if op == ">="@ {
        let b0 = (s.len(), 0nat);
        lemma_step(s, "=="@, b0, n, false);
        let b1 = split_step(s, "=="@, b0);
        lemma_step(s, ">="@, b1, n, true);
        let b2 = split_step(s, ">="@, b1);
        lemma_step(s, "<="@, b2, n, false);
        let b3 = split_step(s, "<="@, b2);
        lemma_step(s, "~="@, b3, n, false);
        let b4 = split_step(s, "~="@, b3);
        lemma_step(s, "!="@, b4, n, false);
        let b5 = split_step(s, "!="@, b4);
        assert(s.subrange(n as int, n + 1 as int) =~= ">"@);
        lemma_step(s, ">"@, b5, n, true);
        let b6 = split_step(s, ">"@, b5);
        lemma_step(s, "<"@, b6, n, false);
        let b7 = split_step(s, "<"@, b6);
        lemma_step(s, "@"@, b7, n, false);
        let b8 = split_step(s, "@"@, b7);
    } else if op == "<="@ {
        let b0 = (s.len(), 0nat);
        lemma_step(s, "=="@, b0, n, false);
        let b1 = split_step(s, "=="@, b0);
        lemma_step(s, ">="@, b1, n, false);
        let b2 = split_step(s, ">="@, b1);
        lemma_step(s, "<="@, b2, n, true);
        let b3 = split_step(s, "<="@, b2);
        lemma_step(s, "~="@, b3, n, false);
        let b4 = split_step(s, "~="@, b3);
        lemma_step(s, "!="@, b4, n, false);
        let b5 = split_step(s, "!="@, b4);
        lemma_step(s, ">"@, b5, n, false);
        let b6 = split_step(s, ">"@, b5);
        assert(s.subrange(n as int, n + 1 as int) =~= "<"@);
        lemma_step(s, "<"@, b6, n, true);
        let b7 = split_step(s, "<"@, b6);
        lemma_step(s, "@"@, b7, n, false);
        let b8 = split_step(s, "@"@, b7);
    } else if op == "~="@ {
        let b0 = (s.len(), 0nat);
        lemma_step(s, "=="@, b0, n, false);
        let b1 = split_step(s, "=="@, b0);
        lemma_step(s, ">="@, b1, n, false);
        let b2 = split_step(s, ">="@, b1);
        lemma_step(s, "<="@, b2, n, false);
        let b3 = split_step(s, "<="@, b2);
        lemma_step(s, "~="@, b3, n, true);
        let b4 = split_step(s, "~="@, b3);
        lemma_step(s, "!="@, b4, n, false);
        let b5 = split_step(s, "!="@, b4);
        lemma_step(s, ">"@, b5, n, false);
        let b6 = split_step(s, ">"@, b5);
        lemma_step(s, "<"@, b6, n, false);
        let b7 = split_step(s, "<"@, b6);
        lemma_step(s, "@"@, b7, n, false);
        let b8 = split_step(s, "@"@, b7);
    } else if op == "!="@ {
        let b0 = (s.len(), 0nat);
        lemma_step(s, "=="@, b0, n, false);
        let b1 = split_step(s, "=="@, b0);
        lemma_step(s, ">="@, b1, n, false);
        let b2 = split_step(s, ">="@, b1);
        lemma_step(s, "<="@, b2, n, false);
        let b3 = split_step(s, "<="@, b2);
        lemma_step(s, "~="@, b3, n, false);
        let b4 = split_step(s, "~="@, b3);
        lemma_step(s, "!="@, b4, n, true);
        let b5 = split_step(s, "!="@, b4);
        lemma_step(s, ">"@, b5, n, false);
        let b6 = split_step(s, ">"@, b5);
        lemma_step(s, "<"@, b6, n, false);
        let b7 = split_step(s, "<"@, b6);
        lemma_step(s, "@"@, b7, n, false);
        let b8 = split_step(s, "@"@, b7);
    } else if op == ">"@ {
        let b0 = (s.len(), 0nat);
        lemma_step(s, "=="@, b0, n, false);
        let b1 = split_step(s, "=="@, b0);
        assert(">="@[1] == '=');
        assert(s.len() == n + 1 + version.len());
        lemma_step(s, ">="@, b1, n, false);
        let b2 = split_step(s, ">="@, b1);
        lemma_step(s, "<="@, b2, n, false);
        let b3 = split_step(s, "<="@, b2);
        lemma_step(s, "~="@, b3, n, false);
        let b4 = split_step(s, "~="@, b3);
        lemma_step(s, "!="@, b4, n, false);
        let b5 = split_step(s, "!="@, b4);
        lemma_step(s, ">"@, b5, n, true);
        let b6 = split_step(s, ">"@, b5);
        lemma_step(s, "<"@, b6, n, false);
        let b7 = split_step(s, "<"@, b6);
        lemma_step(s, "@"@, b7, n, false);
        let b8 = split_step(s, "@"@, b7);
    } else if op == "<"@ {
        let b0 = (s.len(), 0nat);
        lemma_step(s, "=="@, b0, n, false);
        let b1 = split_step(s, "=="@, b0);
        lemma_step(s, ">="@, b1, n, false);
        let b2 = split_step(s, ">="@, b1);
        assert("<="@[1] == '=');
        assert(s.len() == n + 1 + version.len());
        lemma_step(s, "<="@, b2, n, false);
        let b3 = split_step(s, "<="@, b2);
        lemma_step(s, "~="@, b3, n, false);
        let b4 = split_step(s, "~="@, b3);
        lemma_step(s, "!="@, b4, n, false);
        let b5 = split_step(s, "!="@, b4);
        lemma_step(s, ">"@, b5, n, false);
        let b6 = split_step(s, ">"@, b5);
        lemma_step(s, "<"@, b6, n, true);
        let b7 = split_step(s, "<"@, b6);
        lemma_step(s, "@"@, b7, n, false);
        let b8 = split_step(s, "@"@, b7);
    } else if op == "@"@ {
        let b0 = (s.len(), 0nat);
        lemma_step(s, "=="@, b0, n, false);
        let b1 = split_step(s, "=="@, b0);
        lemma_step(s, ">="@, b1, n, false);
        let b2 = split_step(s, ">="@, b1);
        lemma_step(s, "<="@, b2, n, false);
        let b3 = split_step(s, "<="@, b2);
        lemma_step(s, "~="@, b3, n, false);
        let b4 = split_step(s, "~="@, b3);
        lemma_step(s, "!="@, b4, n, false);
        let b5 = split_step(s, "!="@, b4);
        lemma_step(s, ">"@, b5, n, false);
        let b6 = split_step(s, ">"@, b5);
        lemma_step(s, "<"@, b6, n, false);
        let b7 = split_step(s, "<"@, b6);
        lemma_step(s, "@"@, b7, n, true);
        let b8 = split_step(s, "@"@, b7);
    }
}

/// Leading whitespace before a non-blank text is trimmed away.
proof fn lemma_trim_start_after_ws(w: Seq<char>, x: Seq<char>)
    requires
        forall|j: int| 0 <= j < w.len() ==> is_ws(#[trigger] w[j]),
        x.len() > 0,
        !is_ws(x[0]),
    ensures
        trim_start(w + x) == x,
    decreases w.len(),
{
    if w.len() == 0 {
        assert(w + x =~= x);
    } else {
        assert((w + x)[0] == w[0]);
        assert((w + x).drop_first() =~= w.drop_first() + x);
        assert forall|j: int| 0 <= j < w.drop_first().len() implies is_ws(
            #[trigger] w.drop_first()[j],
        ) by {
            assert(w.drop_first()[j] == w[j + 1]);
        }
        lemma_trim_start_after_ws(w.drop_first(), x);
    }
}

/// A range prefix of non-digits before a version is skipped.
proof fn lemma_skip_prefix(prefix: Seq<char>, version: Seq<char>)
    requires
        forall|j: int| 0 <= j < prefix.len() ==> !('0' <= #[trigger] prefix[j] && prefix[j] <= '9'),
        version.len() > 0,
        '0' <= version[0] && version[0] <= '9',
    ensures
        skip_non_digits(prefix + version) == version,
    decreases prefix.len(),
{
    if prefix.len() == 0 {
        assert(prefix + version =~= version);
    } else {
        assert((prefix + version)[0] == prefix[0]);
        assert((prefix + version).drop_first() =~= prefix.drop_first() + version);
        assert forall|j: int| 0 <= j < prefix.drop_first().len() implies !('0'
            <= #[trigger] prefix.drop_first()[j] && prefix.drop_first()[j] <= '9') by {
            assert(prefix.drop_first()[j] == prefix[j + 1]);
        }
        lemma_skip_prefix(prefix.drop_first(), version);
    }
}

/// The first `c` of `a + [c] + b`, when `a` holds none, splits there.
proof fn lemma_split_at(a: Seq<char>, c: char, b: Seq<char>)
    requires
        lacks(a, c),
    ensures
        split_once(a + seq![c] + b, c) == Some((a, b)),
{
    let s = a + seq![c] + b;
    assert forall|j: int| 0 <= j < a.len() implies #[trigger] s[j] != c by {
        assert(s[j] == a[j]);
    }
    assert(s[a.len() as int] == c);
    lemma_char_pos(s, c, a.len() as int);
    assert(s.take(a.len() as int) =~= a);
    assert(s.skip(a.len() + 1 as int) =~= b);
}

/// A `package.json` line `"name": "<range>version"` (with anything after
/// the closing quote, such as a comma) gives the name and the version
/// without its range prefix (`^`, `~`, `>=`, ...).
pub proof fn law_json_dependency_line(
    name: Seq<char>,
    prefix: Seq<char>,
    version: Seq<char>,
    tail: Seq<char>,
)
    requires
        lacks(name, '"'),
        lacks(prefix, '"'),
        lacks(version, '"'),
        forall|j: int| 0 <= j < prefix.len() ==> !('0' <= #[trigger] prefix[j] && prefix[j] <= '9'),
        version.len() > 0,
        '0' <= version[0] && version[0] <= '9',
    ensures
        json_dep_line(seq!['"'] + name + seq!['"', ':', ' ', '"'] + prefix + version + seq!['"']
            + tail) == Some((name, version)),
{
    let raw = prefix + version;
    assert(lacks(raw, '"')) by {
        assert forall|j: int| 0 <= j < raw.len() implies raw[j] != '"' by {
            if j < prefix.len() {
                assert(raw[j] == prefix[j]);
            } else {
                assert(raw[j] == version[j - prefix.len()]);
            }
        }
    }
    let r2 = seq!['"'] + raw + seq!['"'] + tail;
    let rest = seq![':', ' '] + r2;
    let s = seq!['"'] + name + seq!['"', ':', ' ', '"'] + prefix + version + seq!['"'] + tail;
    assert(s.drop_first() =~= name + seq!['"'] + rest);
    lemma_split_at(name, '"', rest);
    assert(trim_start(rest) == rest);
    assert(rest.drop_first() =~= seq![' '] + r2);
    assert(trim_start(seq![' '] + r2) == trim_start((seq![' '] + r2).drop_first()));
    assert((seq![' '] + r2).drop_first() =~= r2);
    assert(trim_start(r2) == r2);
    assert(r2.drop_first() =~= raw + seq!['"'] + tail);
    lemma_split_at(raw, '"', tail);
    lemma_skip_prefix(prefix, version);
}

/// Inside a dependency block, an added `"name": "<range>version",` line
/// reports the package `name` at `version` (range prefix dropped) and the
/// block stays open.
pub proof fn law_json_dependency_reported(name: Seq<char>, prefix: Seq<char>, version: Seq<char>)
    requires
        lacks(name, '"'),
        lacks(prefix, '"'),
        lacks(version, '"'),
        forall|j: int| 0 <= j < prefix.len() ==> !('0' <= #[trigger] prefix[j] && prefix[j] <= '9'),
        version.len() > 0,
        '0' <= version[0] && version[0] <= '9',
    ensures
        json_step(
            JsonScope::Deps,
            seq!['+', ' ', ' ', '"'] + name + seq!['"', ':', ' ', '"'] + prefix + version + seq![
                '"',
                ',',
            ],
        ) == (JsonScope::Deps, Some(Pkg { name, version: Some(version), ecosystem: "npm"@ })),
{
    reveal_strlit("@@");
    reveal_strlit("+++");
    let t = seq!['"'] + name + seq!['"', ':', ' ', '"'] + prefix + version + seq!['"'] + seq![','];
    let l = seq!['+', ' ', ' '] + t;
    assert(seq!['+', ' ', ' ', '"'] + name + seq!['"', ':', ' ', '"'] + prefix + version + seq![
        '"',
        ',',
    ] =~= l);
    law_json_dependency_line(name, prefix, version, seq![',']);
    assert(!starts_with(l, "@@"@)) by {
        if starts_with(l, "@@"@) {
            assert(l.take(2)[0] == l[0]);
        }
    }
    assert(!starts_with(l, "+++"@)) by {
        if starts_with(l, "+++"@) {
            assert(l.take(3)[1] == l[1]);
        }
    }
    assert(l.drop_first() =~= seq![' ', ' '] + t);
    assert(t[0] == '"');
    assert(t.last() == ',');
    lemma_trim_start_after_ws(seq![' ', ' '], t);
    assert(trim_end(t) == t);
    assert(added_text(l) == t);
    assert(!closes_object(t));
}

/// In `pyproject.toml`, an added `"<requirement>",` line inside an open
/// dependency array reports that requirement and leaves the array open; a
/// line outside any dependency array and dependency table (in any other
/// table) reports nothing.
pub proof fn law_pyproject_array_item(sec: PySection, item: Seq<char>, l: Seq<char>)
    requires
        lacks(item, '"'),
    ensures
        py_step(sec, true, seq!['+', ' ', ' ', '"'] + item + seq!['"', ',']) == (
            sec,
            true,
            items_pkgs(seq![item]),
        ),
        py_step(PySection::Other, false, l).2 == Seq::<Pkg>::empty(),
{
    reveal_strlit("+++");
    let t = seq!['"'] + item + seq!['"', ','];
    let l2 = seq!['+', ' ', ' '] + t;
    assert(seq!['+', ' ', ' ', '"'] + item + seq!['"', ','] =~= l2);
    assert(!starts_with(l2, "+++"@)) by {
        if starts_with(l2, "+++"@) {
            assert(l2.take(3)[1] == l2[1]);
        }
    }
    assert(l2.drop_first() =~= seq![' ', ' '] + t);
    assert(t.last() == ',');
    lemma_trim_start_after_ws(seq![' ', ' '], t);
    assert(trim_end(t) == t);
    // Scanning the line: the quoted item, then a comma and the end.
    let k = char_pos(t.drop_first(), '"');
    assert(t.drop_first() =~= item + seq!['"'] + seq![',']);
    lemma_split_at(item, '"', seq![',']);
    assert(k == item.len());
    assert(t.subrange(1, k + 1 as int) =~= item);
    let after = t.skip(k + 2 as int);
    assert(after =~= seq![',']);
    assert(after.drop_first() =~= Seq::<char>::empty());
    assert(scan_array(Seq::<char>::empty()) == (Seq::<Seq<char>>::empty(), false));
    assert(scan_array(after) == scan_array(after.drop_first()));
    assert(scan_array(t).0 =~= seq![item]);
}

/// Only dependency blocks report packages: no line read at the top level
/// of `package.json` or inside another block (`scripts`, `exports`, ...)
/// reports one, and an opening `"dependencies": {` (or `devDependencies`,
/// `peerDependencies`, `optionalDependencies`) line at the top level
/// enters a dependency block.
pub proof fn law_json_only_dependency_blocks(l: Seq<char>, depth: nat, key: Seq<char>)
    ensures
        json_step(JsonScope::Top, l).1 is None,
        json_step(JsonScope::Other(depth), l).1 is None,
        lacks(key, '"') ==> (json_step(
            JsonScope::Top,
            seq![' ', '"'] + key + seq!['"', ':', ' ', '{'],
        ).0 == if key == "dependencies"@ || key == "devDependencies"@ || key == "peerDependencies"@
            || key == "optionalDependencies"@ {
            JsonScope::Deps
        } else {
            JsonScope::Other(1)
        }),
{
    reveal_strlit("@@");
    if lacks(key, '"') {
        let t = seq!['"'] + key + seq!['"', ':', ' ', '{'];
        let l2 = seq![' '] + t;
        assert(seq![' ', '"'] + key + seq!['"', ':', ' ', '{'] =~= l2);
        assert(!starts_with(l2, "@@"@)) by {
            if starts_with(l2, "@@"@) {
                assert(l2.take(2)[0] == l2[0]);
            }
        }
        assert(l2.drop_first() =~= t);
        assert(t[0] == '"');
        assert(t.last() == '{');
        assert(trim(t) == t);
        assert(t.drop_first() =~= key + seq!['"'] + seq![':', ' ', '{']);
        lemma_split_at(key, '"', seq![':', ' ', '{']);
        assert(trim_start(seq![':', ' ', '{']) == seq![':', ' ', '{']);
        assert(json_key(t) == Some(key));
        assert(!closes_object(t));
    }
}

/// A quoted text without quotes inside loses exactly its quotes.
proof fn lemma_trim_quotes(version: Seq<char>)
    requires
        lacks(version, '"'),
    ensures
        trim_char(seq!['"'] + version + seq!['"'], '"') == version,
{
    let q = seq!['"'] + version + seq!['"'];
    let v1 = version + seq!['"'];
    assert(q.drop_first() =~= v1);
    assert(q[0] == '"');
    assert(trim_start_char(q, '"') == trim_start_char(v1, '"'));
    if version.len() > 0 {
        assert(v1[0] == version[0]);
        assert(trim_start_char(v1, '"') == v1);
        assert(v1.drop_last() =~= version);
        assert(v1.last() == '"');
        assert(crate::text::trim_end_char(v1, '"') == crate::text::trim_end_char(version, '"'));
        assert(version.last() == version[version.len() - 1]);
        assert(crate::text::trim_end_char(version, '"') == version);
    } else {
        assert(v1 =~= seq!['"']);
        assert(v1[0] == '"');
        assert(v1.drop_first() =~= Seq::<char>::empty());
        assert(trim_start_char(v1, '"') == trim_start_char(Seq::<char>::empty(), '"'));
        assert(trim_start_char(Seq::<char>::empty(), '"') == Seq::<char>::empty());
        assert(crate::text::trim_end_char(Seq::<char>::empty(), '"') == Seq::<char>::empty());
        assert(version =~= Seq::<char>::empty());
    }
}

/// `name = "version"` splits into the name and the unquoted version.
proof fn lemma_cargo_dep_line(name: Seq<char>, version: Seq<char>)
    requires
        name.len() > 0,
        !is_ws(name[0]),
        !is_ws(name.last()),
        name[0] != '#',
        lacks(name, '='),
        lacks(version, '"'),
    ensures
        cargo_dep_line(name + seq![' ', '=', ' ', '"'] + version + seq!['"']) == Some(
            (name, Some(version)),
        ),
{
    let q = seq!['"'] + version + seq!['"'];
    let r = seq![' ', '"'] + version + seq!['"'];
    let s = name + seq![' ', '=', ' ', '"'] + version + seq!['"'];
    assert(s =~= (name + seq![' ']) + seq!['='] + r);
    assert(lacks(name + seq![' '], '=')) by {
        assert forall|j: int| 0 <= j < (name + seq![' ']).len() implies (name + seq![' '])[j]
            != '=' by {
            if j < name.len() {
                assert((name + seq![' '])[j] == name[j]);
            }
        }
    }
    lemma_split_at(name + seq![' '], '=', r);
    crate::text::lemma_trim_ws_after(name, ' ');
    lemma_trim_clean(name);
    assert(trim_start(r) == trim_start(r.drop_first()));
    assert(r.drop_first() =~= q);
    assert(trim_start(q) == q);
    assert(q.last() == '"');
    assert(trim_end(q) == q);
    assert(trim(r) == q);
    lemma_trim_quotes(version);
    assert(trim_char(q, '"') == version);
}

/// A `Cargo.toml` dependency `name = "version"` gives the name and the
/// version; read in a dependency table as an added line it is reported,
/// and outside any dependency table no line is reported.
#[verifier::rlimit(40)]
pub proof fn law_cargo_dependency_line(name: Seq<char>, version: Seq<char>, l: Seq<char>)
    requires
        name.len() > 0,
        !is_ws(name[0]),
        !is_ws(name.last()),
        name[0] != '#',
        name[0] != '[',
        name[0] != '+',
        lacks(name, '='),
        lacks(version, '"'),
    ensures
        cargo_dep_line(name + seq![' ', '=', ' ', '"'] + version + seq!['"']) == Some(
            (name, Some(version)),
        ),
        cargo_step(true, seq!['+'] + name + seq![' ', '=', ' ', '"'] + version + seq!['"']) == (
            true,
            Some(Pkg { name, version: Some(version), ecosystem: "crates.io"@ }),
        ),
        cargo_step(false, l).1 is None,
{
    reveal_strlit("+++");
    lemma_cargo_dep_line(name, version);
    let s = name + seq![' ', '=', ' ', '"'] + version + seq!['"'];
    let l2 = seq!['+'] + s;
    assert(l2.drop_first() =~= s);
    assert(s[0] == name[0]);
    assert(s.last() == '"');
    lemma_trim_clean(s);
    assert(l2[1] == name[0]);
    assert(!starts_with(l2, "+++"@)) by {
        if starts_with(l2, "+++"@) {
            assert(l2.take(3)[1] == l2[1]);
        }
    }
    assert(seq!['+'] + name + seq![' ', '=', ' ', '"'] + version + seq!['"'] =~= l2);
}

/// An entry of a `go.mod` require block (`<tab>module/path v1.2.3`, any
/// leading whitespace), or one `require` line, added by a diff reports the
/// module path and the version without its `v`.  The path and version hold
/// no whitespace; the path is not `go`, `module`, does not start with `/`,
/// `+` or `require`; the version does not start with `v`.
pub proof fn law_go_mod_entry(indent: Seq<char>, path: Seq<char>, version: Seq<char>)
    requires
        forall|j: int| 0 <= j < indent.len() ==> is_ws(#[trigger] indent[j]),
        path.len() > 0,
        version.len() > 0,
        forall|j: int| 0 <= j < path.len() ==> !is_ws(#[trigger] path[j]),
        forall|j: int| 0 <= j < version.len() ==> !is_ws(#[trigger] version[j]),
        path[0] != '/',
        path[0] != '+',
        path != "go"@,
        path != "module"@,
        !starts_with(path, "require"@),
        version[0] != 'v',
    ensures
        go_mod_line(seq!['+'] + indent + path + seq![' ', 'v'] + version) == Some(
            Pkg { name: path, version: Some(version), ecosystem: "Go"@ },
        ),
{
    reveal_strlit("+++");
    reveal_strlit("require");
    reveal_strlit("//");
    reveal_strlit("go ");
    reveal_strlit("module ");
    reveal_strlit("(");
    reveal_strlit(")");
    let tok2 = seq!['v'] + version;
    let line = path + seq![' '] + tok2;
    let l = seq!['+'] + indent + path + seq![' ', 'v'] + version;
    assert(l.drop_first() =~= indent + line);
    assert(line[0] == path[0]);
    assert(line.last() == version.last());
    lemma_trim_start_after_ws(indent, line);
    assert(trim_end(line) == line);
    assert(added_text(l) == line);
    assert(is_added(l)) by {
        if starts_with(l, "+++"@) {
            if indent.len() > 0 {
                assert(l[1] == indent[0]);
                assert(l.take(3)[1] == l[1]);
            } else {
                assert(l[1] == path[0]);
                assert(l.take(3)[1] == l[1]);
            }
        }
    }
    let n = path.len();
    assert(line[n as int] == ' ');
    assert(!starts_with(line, "require"@)) by {
        if starts_with(line, "require"@) {
            if n >= 7 {
                assert(path.take(7) =~= line.take(7));
            } else {
                assert(line.take(7)[n as int] == line[n as int]);
            }
        }
    }
    assert(go_mod_body(l) == line);
    assert(!starts_with(line, "//"@)) by {
        if starts_with(line, "//"@) {
            assert(line.take(2)[0] == line[0]);
        }
    }
    assert(!starts_with(line, "go "@)) by {
        if starts_with(line, "go "@) {
            let h = line.take(3);
            assert(h == "go "@);
            if n >= 3 {
                assert(h[2] == path[2]);
                assert(!is_ws(path[2]));
                assert(h[2] == ' ');
            } else if n == 2 {
                assert(path =~= h.take(2));
                assert("go "@.take(2) =~= "go"@) by {
                    reveal_strlit("go");
                }
            } else {
                assert(h[1] == line[1]);
                assert(line[1] == ' ');
            }
        }
    }
    assert(!starts_with(line, "module "@)) by {
        if starts_with(line, "module "@) {
            let h = line.take(7);
            assert(h == "module "@);
            if n >= 7 {
                assert(h[6] == path[6]);
                assert(!is_ws(path[6]));
                assert(h[6] == ' ');
            } else if n == 6 {
                assert(path =~= h.take(6));
                assert("module "@.take(6) =~= "module"@) by {
                    reveal_strlit("module");
                }
            } else {
                assert(h[n as int] == line[n as int]);
                assert(line[n as int] == ' ');
            }
        }
    }
    assert(line.len() > 1);
    assert(!go_mod_skipped(line));
    assert(trim_start(line) == line);
    lemma_ws_pos(line, n as int);
    assert(line.take(n as int) =~= path);
    let rest = line.skip(n as int);
    assert(rest =~= seq![' '] + tok2);
    assert(trim_start(rest) == trim_start(rest.drop_first()));
    assert(rest.drop_first() =~= tok2);
    assert forall|j: int| 0 <= j < tok2.len() implies !is_ws(#[trigger] tok2[j]) by {
        if j > 0 {
            assert(tok2[j] == version[j - 1]);
        }
    }
    lemma_single_token(tok2);
    assert(trim_start(rest) == tok2) by {
        assert(trim_start(tok2) == tok2);
    }
    assert(next_token(rest) == Some((tok2, Seq::<char>::empty())));
    assert(tok2.drop_first() =~= version);
    assert(trim_start_char(tok2, 'v') == trim_start_char(version, 'v'));
    assert(trim_start_char(version, 'v') == version);
}

/// A `requirements.txt` line `name OP version` (OP one of `==`, `>=`, `<=`,
/// `~=`, `!=`, `>`, `<`, `@`) is split at its operator: the package is the
/// trimmed, lower-cased name and the version is the trimmed text after the
/// operator.  The name holds none of `= < > ! ~ @`, so the reported name
/// holds none either; a version after `>` or `<` that starts with `=` would
/// make a different operator and is left out.
pub proof fn law_requirement_splits_at_operator(name: Seq<char>, op: Seq<char>, version: Seq<char>)
    requires
        is_version_operator(op),
        name.len() > 0,
        !is_ws(name[0]),
        name[0] != '#',
        name[0] != '-',
        name[0] != '+',
        forall|j: int| 0 <= j < name.len() ==> !is_operator_char(#[trigger] name[j]),
        lacks(name, '\n'),
        lacks(version, '\n'),
        !(version.len() > 0 && version[0] == '='),
        version.len() == 0 || !is_ws(version.last()),
    ensures
        parse_diff_spec("requirements.txt"@, seq!['+'] + name + op + version + seq!['\n']) == seq![
            Pkg {
                name: lowercase(trim(name)),
                version: Some(trim(version)),
                ecosystem: "PyPI"@,
            },
        ],
        forall|j: int| 0 <= j < trim(name).len() ==> !is_operator_char(#[trigger] trim(name)[j]),
{
    reveal_strlit("==");
    reveal_strlit(">=");
    reveal_strlit("<=");
    reveal_strlit("~=");
    reveal_strlit("!=");
    reveal_strlit(">");
    reveal_strlit("<");
    reveal_strlit("@");
    reveal_strlit("+++");
    let s = name + op + version;
    let l = seq!['+'] + s;
    assert(seq!['+'] + name + op + version =~= l);
    assert(s[0] == name[0]);
    assert(op.len() > 0 && !is_ws(op.last()));
    if version.len() > 0 {
        assert(s.last() == version.last());
    } else {
        assert(s.last() == op.last());
    }
    lemma_trim_clean(s);
    assert(l.drop_first() =~= s);
    assert(l[1] == name[0]);
    assert(!starts_with(l, "+++"@)) by {
        if starts_with(l, "+++"@) {
            assert(l.take(3)[1] == l[1]);
        }
    }
    lemma_requirement_split_point(name, op, version);
    assert(s.take(name.len() as int) =~= name);
    assert(s.skip((name.len() + op.len()) as int) =~= version);
    assert(requirement_line(l) == Some(
        Pkg { name: lowercase(trim(name)), version: Some(trim(version)), ecosystem: "PyPI"@ },
    ));
    assert forall|j: int| 0 <= j < l.len() implies l[j] != '\n' by {
        if j > 0 {
            assert(l[j] == s[j - 1]);
            if j - 1 >= name.len() + op.len() {
                assert(s[j - 1] == version[j - 1 - name.len() - op.len()]);
            } else if j - 1 >= name.len() {
                assert(s[j - 1] == op[j - 1 - name.len()]);
            } else {
                assert(s[j - 1] == name[j - 1]);
            }
        }
    }
    assert(l.last() == s.last());
    lemma_lines_single(l);
    let ls = seq![l];
    assert(ls.drop_first() =~= Seq::<Seq<char>>::empty());
    assert(requirements_from(Seq::<Seq<char>>::empty()) == Seq::<Pkg>::empty());
    assert(requirements_from(ls) =~= seq![requirement_line(l)->0]);
    crate::text::lemma_trim_sub(name);
    assert forall|j: int| 0 <= j < trim(name).len() implies !is_operator_char(
        #[trigger] trim(name)[j],
    ) by {
        let a = choose|a: int|
            0 <= a && a + trim(name).len() <= name.len() && #[trigger] name.subrange(
                a,
                a + trim(name).len(),
            ) == trim(name);
        assert(trim(name)[j] == name[a + j]);
    }
}

/// No line of `ls` adds text.
pub open spec fn adds_nothing(ls: Seq<Seq<char>>) -> bool {
    forall|i: int| 0 <= i < ls.len() ==> !is_added(#[trigger] ls[i])
}

/// The ecosystem of the packages in the manifest `filename`.
pub open spec fn manifest_ecosystem(filename: Seq<char>) -> Seq<char> {
    if filename == "requirements.txt"@ {
        "PyPI"@
    } else if filename == "package.json"@ {
        "npm"@
    } else if filename == "go.mod"@ {
        "Go"@
    } else if filename == "Cargo.toml"@ {
        "crates.io"@
    } else if filename == "pyproject.toml"@ {
        "PyPI"@
    } else {
        seq![]
    }
}

proof fn lemma_adds_nothing_tail(ls: Seq<Seq<char>>)
    requires
        ls.len() > 0,
        adds_nothing(ls),
    ensures
        !is_added(ls[0]),
        adds_nothing(ls.drop_first()),
{
    assert(!is_added(ls[0]));
    assert forall|i: int| 0 <= i < ls.drop_first().len() implies !is_added(
        #[trigger] ls.drop_first()[i],
    ) by {
        assert(ls.drop_first()[i] == ls[i + 1]);
    }
}

proof fn lemma_requirements_nothing(ls: Seq<Seq<char>>)
    requires
        adds_nothing(ls),
    ensures
        requirements_from(ls) == Seq::<Pkg>::empty(),
    decreases ls.len(),
{
    if ls.len() > 0 {
        lemma_adds_nothing_tail(ls);
        lemma_requirements_nothing(ls.drop_first());
    }
}

proof fn lemma_package_json_nothing(ls: Seq<Seq<char>>, s: JsonScope)
    requires
        adds_nothing(ls),
    ensures
        package_json_from(ls, s) == Seq::<Pkg>::empty(),
    decreases ls.len(),
{
    if ls.len() > 0 {
        lemma_adds_nothing_tail(ls);
        let (next, found) = json_step(s, ls[0]);
        assert(found is None);
        lemma_package_json_nothing(ls.drop_first(), next);
    }
}

proof fn lemma_go_mod_nothing(ls: Seq<Seq<char>>)
    requires
        adds_nothing(ls),
    ensures
        go_mod_from(ls) == Seq::<Pkg>::empty(),
    decreases ls.len(),
{
    if ls.len() > 0 {
        lemma_adds_nothing_tail(ls);
        lemma_go_mod_nothing(ls.drop_first());
    }
}

proof fn lemma_cargo_nothing(ls: Seq<Seq<char>>, in_deps: bool)
    requires
        adds_nothing(ls),
    ensures
        cargo_from(ls, in_deps) == Seq::<Pkg>::empty(),
    decreases ls.len(),
{
    if ls.len() > 0 {
        lemma_adds_nothing_tail(ls);
        let (next, found) = cargo_step(in_deps, ls[0]);
        assert(found is None);
        lemma_cargo_nothing(ls.drop_first(), next);
    }
}

proof fn lemma_pyproject_nothing(ls: Seq<Seq<char>>, sec: PySection, in_array: bool)
    requires
        adds_nothing(ls),
    ensures
        pyproject_from(ls, sec, in_array) == Seq::<Pkg>::empty(),
    decreases ls.len(),
{
    if ls.len() > 0 {
        lemma_adds_nothing_tail(ls);
        let (sec2, arr2, found) = py_step(sec, in_array, ls[0]);
        assert(found == Seq::<Pkg>::empty());
        lemma_pyproject_nothing(ls.drop_first(), sec2, arr2);
        assert(found + Seq::<Pkg>::empty() =~= Seq::<Pkg>::empty());
    }
}

/// Only added lines report packages: a diff that adds no line (only
/// unchanged, removed or header lines) reports none.
pub proof fn law_unadded_lines_report_nothing(filename: Seq<char>, diff: Seq<char>)
    requires
        adds_nothing(lines(diff)),
    ensures
        parse_diff_spec(filename, diff) == Seq::<Pkg>::empty(),
{
    lemma_requirements_nothing(lines(diff));
    lemma_package_json_nothing(lines(diff), JsonScope::Unknown);
    lemma_go_mod_nothing(lines(diff));
    lemma_cargo_nothing(lines(diff), false);
    lemma_pyproject_nothing(lines(diff), PySection::Other, false);
}

proof fn lemma_requirements_ecosystem(ls: Seq<Seq<char>>)
    ensures
        forall|i: int|
            0 <= i < requirements_from(ls).len() ==> (#[trigger] requirements_from(ls)[i]).ecosystem
                == "PyPI"@,
    decreases ls.len(),
{
    if ls.len() > 0 {
        let rest = ls.drop_first();
        lemma_requirements_ecosystem(rest);
        if let Some(p) = requirement_line(ls[0]) {
            assert forall|i: int| 0 <= i < requirements_from(ls).len() implies (
            #[trigger] requirements_from(ls)[i]).ecosystem == "PyPI"@ by {
                if i > 0 {
                    assert(requirements_from(ls)[i] == requirements_from(rest)[i - 1]);
                }
            }
        }
    }
}

proof fn lemma_package_json_ecosystem(ls: Seq<Seq<char>>, s: JsonScope)
    ensures
        forall|i: int|
            0 <= i < package_json_from(ls, s).len() ==> (#[trigger] package_json_from(
                ls,
                s,
            )[i]).ecosystem == "npm"@,
    decreases ls.len(),
{
    if ls.len() > 0 {
        let rest = ls.drop_first();
        let (next, found) = json_step(s, ls[0]);
        lemma_package_json_ecosystem(rest, next);
        if let Some(p) = found {
            assert(p.ecosystem == "npm"@);
            assert forall|i: int| 0 <= i < package_json_from(ls, s).len() implies (
            #[trigger] package_json_from(ls, s)[i]).ecosystem == "npm"@ by {
                if i > 0 {
                    assert(package_json_from(ls, s)[i] == package_json_from(rest, next)[i - 1]);
                }
            }
        }
    }
}

proof fn lemma_go_mod_ecosystem(ls: Seq<Seq<char>>)
    ensures
        forall|i: int|
            0 <= i < go_mod_from(ls).len() ==> (#[trigger] go_mod_from(ls)[i]).ecosystem == "Go"@,
    decreases ls.len(),
{
    if ls.len() > 0 {
        let rest = ls.drop_first();
        lemma_go_mod_ecosystem(rest);
        if let Some(p) = go_mod_line(ls[0]) {
            assert forall|i: int| 0 <= i < go_mod_from(ls).len() implies (
            #[trigger] go_mod_from(ls)[i]).ecosystem == "Go"@ by {
                if i > 0 {
                    assert(go_mod_from(ls)[i] == go_mod_from(rest)[i - 1]);
                }
            }
        }
    }
}

proof fn lemma_cargo_ecosystem(ls: Seq<Seq<char>>, in_deps: bool)
    ensures
        forall|i: int|
            0 <= i < cargo_from(ls, in_deps).len() ==> (#[trigger] cargo_from(
                ls,
                in_deps,
            )[i]).ecosystem == "crates.io"@,
    decreases ls.len(),
{
    if ls.len() > 0 {
        let rest = ls.drop_first();
        let (next, found) = cargo_step(in_deps, ls[0]);
        lemma_cargo_ecosystem(rest, next);
        if let Some(p) = found {
            assert forall|i: int| 0 <= i < cargo_from(ls, in_deps).len() implies (
            #[trigger] cargo_from(ls, in_deps)[i]).ecosystem == "crates.io"@ by {
                if i > 0 {
                    assert(cargo_from(ls, in_deps)[i] == cargo_from(rest, next)[i - 1]);
                }
            }
        }
    }
}

proof fn lemma_items_ecosystem(items: Seq<Seq<char>>)
    ensures
        forall|i: int|
            0 <= i < items_pkgs(items).len() ==> (#[trigger] items_pkgs(items)[i]).ecosystem
                == "PyPI"@,
    decreases items.len(),
{
    if items.len() > 0 {
        let rest = items.drop_first();
        lemma_items_ecosystem(rest);
        if let Some(p) = requirement_item(items[0]) {
            assert forall|i: int| 0 <= i < items_pkgs(items).len() implies (
            #[trigger] items_pkgs(items)[i]).ecosystem == "PyPI"@ by {
                if i > 0 {
                    assert(items_pkgs(items)[i] == items_pkgs(rest)[i - 1]);
                }
            }
        }
    }
}

proof fn lemma_pyproject_ecosystem(ls: Seq<Seq<char>>, sec: PySection, in_array: bool)
    ensures
        forall|i: int|
            0 <= i < pyproject_from(ls, sec, in_array).len() ==> (#[trigger] pyproject_from(
                ls,
                sec,
                in_array,
            )[i]).ecosystem == "PyPI"@,
    decreases ls.len(),
{
    if ls.len() > 0 {
        let rest = ls.drop_first();
        let (sec2, arr2, found) = py_step(sec, in_array, ls[0]);
        lemma_pyproject_ecosystem(rest, sec2, arr2);
        let l = ls[0];
        let t = trim(l.drop_first());
        lemma_items_ecosystem(scan_array(t).0);
        match array_start(sec, t) {
            Some(r) => lemma_items_ecosystem(scan_array(r).0),
            None => {},
        }
        assert forall|j: int| 0 <= j < found.len() implies (#[trigger] found[j]).ecosystem
            == "PyPI"@ by {}
        let all = pyproject_from(ls, sec, in_array);
        assert(all == found + pyproject_from(rest, sec2, arr2));
        assert forall|i: int| 0 <= i < all.len() implies (#[trigger] all[i]).ecosystem
            == "PyPI"@ by {
            if i >= found.len() {
                assert(all[i] == pyproject_from(rest, sec2, arr2)[i - found.len()]);
            } else {
                assert(all[i] == found[i]);
            }
        }
    }
}

/// Every package a manifest reports carries that manifest's ecosystem:
/// PyPI for `requirements.txt` and `pyproject.toml`, npm for
/// `package.json`, Go for `go.mod`, crates.io for `Cargo.toml`; whatever
/// the lines read, a staged diff (`parse_diff_spec`) or a whole file
/// (`manifest_spec`).
pub proof fn law_ecosystem_follows_manifest(filename: Seq<char>, ls: Seq<Seq<char>>, i: int)
    requires
        0 <= i < parse_lines_spec(filename, ls).len(),
    ensures
        parse_lines_spec(filename, ls)[i].ecosystem == manifest_ecosystem(filename),
{
    lemma_requirements_ecosystem(ls);
    lemma_package_json_ecosystem(ls, JsonScope::Unknown);
    lemma_go_mod_ecosystem(ls);
    lemma_cargo_ecosystem(ls, false);
    lemma_pyproject_ecosystem(ls, PySection::Other, false);
}

} // verus!
