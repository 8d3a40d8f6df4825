//! Package-manager shims: which package manager an invocation stands for,
//! which packages an install command is about to fetch, and which manifest
//! a bare restore command installs from.

use vstd::prelude::*;
use crate::text::{
    char_pos, chars_of, copy_range, ends_with, ends_with_str, eq_str, find, find_str,
    is_ws, lacks, lemma_char_pos_props, next_token, next_token_v, split_once, split_once_v, string_views,
    to_string_v, trim, trim_end_char, trim_end_char_v, trim_v,
};

verus! {

/// A package manager that primer can stand in for.
#[derive(Debug, PartialEq, Eq, Structural, Clone, Copy)]
pub enum PackageManager {
    Pip,
    Uv,
    Poetry,
    Npm,
    Yarn,
    Pnpm,
    Go,
    Cargo,
}

/// The command name of `pm`.
pub open spec fn pm_name(pm: PackageManager) -> Seq<char> {
    match pm {
        PackageManager::Pip => "pip"@,
        PackageManager::Uv => "uv"@,
        PackageManager::Poetry => "poetry"@,
        PackageManager::Npm => "npm"@,
        PackageManager::Yarn => "yarn"@,
        PackageManager::Pnpm => "pnpm"@,
        PackageManager::Go => "go"@,
        PackageManager::Cargo => "cargo"@,
    }
}

/// The advisory-database ecosystem of the packages that `pm` installs.
pub open spec fn pm_ecosystem(pm: PackageManager) -> Seq<char> {
    match pm {
        PackageManager::Pip | PackageManager::Uv | PackageManager::Poetry => "PyPI"@,
        PackageManager::Npm | PackageManager::Yarn | PackageManager::Pnpm => "npm"@,
        PackageManager::Go => "Go"@,
        PackageManager::Cargo => "crates.io"@,
    }
}

/// The package manager whose command name is `n` (`pip3` stands for pip).
pub open spec fn pm_from_name(n: Seq<char>) -> Option<PackageManager> {
    if n == "pip"@ || n == "pip3"@ {
        Some(PackageManager::Pip)
    } else if n == "uv"@ {
        Some(PackageManager::Uv)
    } else if n == "poetry"@ {
        Some(PackageManager::Poetry)
    } else if n == "npm"@ {
        Some(PackageManager::Npm)
    } else if n == "yarn"@ {
        Some(PackageManager::Yarn)
    } else if n == "pnpm"@ {
        Some(PackageManager::Pnpm)
    } else if n == "go"@ {
        Some(PackageManager::Go)
    } else if n == "cargo"@ {
        Some(PackageManager::Cargo)
    } else {
        None
    }
}

/// Index just after the last `/` of `t`, or 0 when `t` has none.
pub open spec fn after_last_slash(t: Seq<char>) -> nat
    decreases t.len(),
{
    if t.len() == 0 {
        0
    } else if t.last() == '/' {
        t.len()
    } else {
        after_last_slash(t.drop_last())
    }
}

/// The final component of the path `s`, as `Path::file_name`: trailing
/// slashes and `.` components are passed over; none when the path ends in
/// `..` or has no normal component.
pub open spec fn file_name(s: Seq<char>) -> Option<Seq<char>>
    decreases s.len(),
{
    let t = trim_end_char(s, '/');
    let k = after_last_slash(t);
    if t.len() <= k {
        None
    } else {
        let seg = t.skip(k as int);
        if seg == "."@ {
            proof {
                lemma_trim_end_char_len(s, '/');
            }
            file_name(t.take(k as int))
        } else if seg == ".."@ {
            None
        } else {
            Some(seg)
        }
    }
}

/// The command name that an invocation as `argv0` carries: the final path
/// component of `argv0`, or `argv0` itself when it has none.
pub open spec fn argv0_name(argv0: Seq<char>) -> Seq<char> {
    match file_name(argv0) {
        Some(n) => n,
        None => argv0,
    }
}

/// Trimming never lengthens a sequence.
pub proof fn lemma_trim_end_char_len(s: Seq<char>, c: char)
    ensures
        trim_end_char(s, c).len() <= s.len(),
    decreases s.len(),
{
    if s.len() > 0 && s.last() == c {
        lemma_trim_end_char_len(s.drop_last(), c);
    }
}

fn after_last_slash_v(t: &Vec<char>) -> (r: usize)
    ensures
        r == after_last_slash(t@),
        r <= t@.len(),
{
    let mut k = t.len();
    assert(t@.take(k as int) =~= t@);
    while k > 0 && t[k - 1] != '/'
        invariant
            k <= t@.len(),
            after_last_slash(t@) == after_last_slash(t@.take(k as int)),
        decreases k,
    {
        assert(t@.take(k as int).drop_last() =~= t@.take(k - 1));
        k = k - 1;
    }
    k
}

/// The final component of the path `s`.
pub fn file_name_v(s: &Vec<char>) -> (r: Option<Vec<char>>)
    ensures
        match r {
            Some(v) => file_name(s@) == Some(v@),
            None => file_name(s@) is None,
        },
{
    let mut cur = copy_range(s, 0, s.len());
    assert(cur@ =~= s@);
    loop
        invariant
            file_name(s@) == file_name(cur@),
        decreases cur@.len(),
    {
        let t = trim_end_char_v(&cur, '/');
        proof {
            lemma_trim_end_char_len(cur@, '/');
        }
        let k = after_last_slash_v(&t);
        if t.len() <= k {
            return None;
        }
        let seg = copy_range(&t, k, t.len());
        assert(seg@ =~= t@.skip(k as int));
        if eq_str(&seg, ".") {
            let next = copy_range(&t, 0, k);
            assert(next@ =~= t@.take(k as int));
            cur = next;
        } else if eq_str(&seg, "..") {
            return None;
        } else {
            return Some(seg);
        }
    }
}

impl PackageManager {
    /// The package manager that an invocation as `argv0` stands for: the
    /// final path component of `argv0` (or `argv0` itself when it has
    /// none) named as a package manager.
    pub fn from_argv0(argv0: &str) -> (r: Option<PackageManager>)
        ensures
            r == pm_from_name(argv0_name(argv0@)),
    {
        let a = chars_of(argv0);
        let n = match file_name_v(&a) {
            Some(n) => n,
            None => a,
        };
        if eq_str(&n, "pip") || eq_str(&n, "pip3") {
            Some(PackageManager::Pip)
        } else if eq_str(&n, "uv") {
            Some(PackageManager::Uv)
        } else if eq_str(&n, "poetry") {
            Some(PackageManager::Poetry)
        } else if eq_str(&n, "npm") {
            Some(PackageManager::Npm)
        } else if eq_str(&n, "yarn") {
            Some(PackageManager::Yarn)
        } else if eq_str(&n, "pnpm") {
            Some(PackageManager::Pnpm)
        } else if eq_str(&n, "go") {
            Some(PackageManager::Go)
        } else if eq_str(&n, "cargo") {
            Some(PackageManager::Cargo)
        } else {
            None
        }
    }

    /// The command name of this package manager.
    pub fn name(&self) -> (r: &'static str)
        ensures
            r@ == pm_name(*self),
    {
        match self {
            PackageManager::Pip => "pip",
            PackageManager::Uv => "uv",
            PackageManager::Poetry => "poetry",
            PackageManager::Npm => "npm",
            PackageManager::Yarn => "yarn",
            PackageManager::Pnpm => "pnpm",
            PackageManager::Go => "go",
            PackageManager::Cargo => "cargo",
        }
    }

    /// The advisory-database ecosystem of this package manager.
    pub fn ecosystem(&self) -> (r: &'static str)
        ensures
            r@ == pm_ecosystem(*self),
    {
        match self {
            PackageManager::Pip | PackageManager::Uv | PackageManager::Poetry => "PyPI",
            PackageManager::Npm | PackageManager::Yarn | PackageManager::Pnpm => "npm",
            PackageManager::Go => "Go",
            PackageManager::Cargo => "crates.io",
        }
    }

    /// Every package manager, in a fixed order.
    pub fn all() -> (r: Vec<PackageManager>)
        ensures
            r@ == seq![
                PackageManager::Pip,
                PackageManager::Uv,
                PackageManager::Poetry,
                PackageManager::Npm,
                PackageManager::Yarn,
                PackageManager::Pnpm,
                PackageManager::Go,
                PackageManager::Cargo,
            ],
    {
        let mut v = Vec::new();
        v.push(PackageManager::Pip);
        v.push(PackageManager::Uv);
        v.push(PackageManager::Poetry);
        v.push(PackageManager::Npm);
        v.push(PackageManager::Yarn);
        v.push(PackageManager::Pnpm);
        v.push(PackageManager::Go);
        v.push(PackageManager::Cargo);
        assert(v@ =~= seq![
            PackageManager::Pip,
            PackageManager::Uv,
            PackageManager::Poetry,
            PackageManager::Npm,
            PackageManager::Yarn,
            PackageManager::Pnpm,
            PackageManager::Go,
            PackageManager::Cargo,
        ]);
        v
    }
}


/// A package named on an install command line.
#[derive(Debug, PartialEq)]
pub struct PackageArg {
    pub name: String,
    pub version: Option<String>,
}

/// The mathematical value of a `PackageArg`.
pub struct ArgSpec {
    pub name: Seq<char>,
    pub version: Option<Seq<char>>,
}

impl View for PackageArg {
    type V = ArgSpec;

    open spec fn view(&self) -> ArgSpec {
        ArgSpec {
            name: self.name@,
            version: match self.version {
                Some(v) => Some(v@),
                None => None,
            },
        }
    }
}

/// The views of a sequence of package arguments.
pub open spec fn arg_views(s: Seq<PackageArg>) -> Seq<ArgSpec> {
    s.map_values(|a: PackageArg| a@)
}

/// `sub` is the subcommand with which `pm` installs packages.
pub open spec fn is_install(pm: PackageManager, sub: Seq<char>) -> bool {
    match pm {
        PackageManager::Pip | PackageManager::Uv => sub == "install"@,
        PackageManager::Poetry => sub == "add"@,
        PackageManager::Npm => sub == "install"@ || sub == "i"@ || sub == "add"@,
        PackageManager::Yarn => sub == "add"@,
        PackageManager::Pnpm => sub == "add"@ || sub == "install"@,
        PackageManager::Go => sub == "get"@,
        PackageManager::Cargo => sub == "add"@,
    }
}

/// A Python package manager: its specs read `name==version`.
pub open spec fn is_python(pm: PackageManager) -> bool {
    pm == PackageManager::Pip || pm == PackageManager::Uv || pm == PackageManager::Poetry
}

/// An argument that may name a package: no option, and no manifest file
/// (`.txt`, `.toml`, `.json`) passed to an option.
pub open spec fn is_package_arg(a: Seq<char>) -> bool {
    &&& !(a.len() > 0 && a[0] == '-')
    &&& !ends_with(a, ".txt"@)
    &&& !ends_with(a, ".toml"@)
    &&& !ends_with(a, ".json"@)
}

/// A character that ends the name in a Python requirement spec.
pub open spec fn is_spec_delim(c: char) -> bool {
    c == '=' || c == '>' || c == '<' || c == '!' || c == '['
}

/// Index of the first requirement delimiter in `s`, or the length of `s`.
pub open spec fn spec_delim_pos(s: Seq<char>) -> nat
    decreases s.len(),
{
    if s.len() == 0 || is_spec_delim(s[0]) {
        0
    } else {
        1 + spec_delim_pos(s.drop_first())
    }
}

/// The package that the spec `spec` names for `pm`: `name@version` for
/// npm, yarn, pnpm, go and cargo; for the Python managers the name ends at
/// the first of `= > < ! [`, and only a `==` pin gives a version (the first
/// token after it, empty when there is none).
pub open spec fn package_spec(pm: PackageManager, spec: Seq<char>) -> ArgSpec {
    if is_python(pm) {
        ArgSpec {
            name: trim(spec.take(spec_delim_pos(spec) as int)),
            version: match find(spec, "=="@) {
                Some(i) => Some(
                    match next_token(spec.skip(i + 2 as int)) {
                        Some((t, _)) => t,
                        None => seq![],
                    },
                ),
                None => None,
            },
        }
    } else {
        match split_once(spec, '@') {
            Some((name, version)) => ArgSpec { name, version: Some(version) },
            None => ArgSpec { name: spec, version: None },
        }
    }
}

/// The packages that the arguments `args` name for `pm`.
pub open spec fn package_specs(pm: PackageManager, args: Seq<Seq<char>>) -> Seq<ArgSpec>
    decreases args.len(),
{
    if args.len() == 0 {
        seq![]
    } else if is_package_arg(args[0]) {
        seq![package_spec(pm, args[0])] + package_specs(pm, args.drop_first())
    } else {
        package_specs(pm, args.drop_first())
    }
}

/// The packages an invocation of `pm` with `args` installs: none when the
/// subcommand does not install or no argument names a package.
pub open spec fn extract_spec(pm: PackageManager, args: Seq<Seq<char>>) -> Option<Seq<ArgSpec>> {
    if args.len() == 0 || !is_install(pm, args[0]) {
        None
    } else {
        let specs = package_specs(pm, args.drop_first());
        if specs.len() == 0 {
            None
        } else {
            Some(specs)
        }
    }
}

fn spec_delim_pos_v(s: &Vec<char>) -> (r: usize)
    ensures
        r == spec_delim_pos(s@),
        r <= s@.len(),
{
    let n = s.len();
    let mut i: usize = 0;
    assert(s@.skip(0) =~= s@);
    while i < n && !(s[i] == '=' || s[i] == '>' || s[i] == '<' || s[i] == '!' || s[i] == '[')
        invariant
            i <= n,
            n == s@.len(),
            spec_delim_pos(s@) == i + spec_delim_pos(s@.skip(i as int)),
        decreases n - i,
    {
        assert(s@.skip(i as int).drop_first() =~= s@.skip(i + 1));
        i = i + 1;
    }
    i
}

fn is_install_v(pm: PackageManager, sub: &Vec<char>) -> (r: bool)
    ensures
        r == is_install(pm, sub@),
{
    match pm {
        PackageManager::Pip | PackageManager::Uv => eq_str(sub, "install"),
        PackageManager::Poetry => eq_str(sub, "add"),
        PackageManager::Npm => eq_str(sub, "install") || eq_str(sub, "i") || eq_str(sub, "add"),
        PackageManager::Yarn => eq_str(sub, "add"),
        PackageManager::Pnpm => eq_str(sub, "add") || eq_str(sub, "install"),
        PackageManager::Go => eq_str(sub, "get"),
        PackageManager::Cargo => eq_str(sub, "add"),
    }
}

/// The package that the spec `spec` names for `pm`.
pub fn parse_package_spec(pm: &PackageManager, spec: &str) -> (r: PackageArg)
    ensures
        r@ == package_spec(*pm, spec@),
{
    let s = chars_of(spec);
    match pm {
        PackageManager::Pip | PackageManager::Uv | PackageManager::Poetry => {
            let end = spec_delim_pos_v(&s);
            let name = trim_v(&copy_range(&s, 0, end));
            assert(s@.subrange(0, end as int) =~= s@.take(end as int));
            let version = match find_str(&s, "==") {
                Some(i) => {
                    proof {
                        reveal_strlit("==");
                    }
                    let n = s.len();
                    assert(i + 2 <= n);
                    let rest = copy_range(&s, i + 2, n);
                    assert(rest@ =~= s@.skip(i + 2 as int));
                    match next_token_v(&rest) {
                        Some((t, _)) => Some(to_string_v(&t)),
                        None => Some(String::new()),
                    }
                },
                None => None,
            };
            PackageArg { name: to_string_v(&name), version }
        },
        _ => {
            match split_once_v(&s, '@') {
                Some((name, version)) => PackageArg {
                    name: to_string_v(&name),
                    version: Some(to_string_v(&version)),
                },
                None => PackageArg { name: String::from_str(spec), version: None },
            }
        },
    }
}

fn is_package_arg_v(a: &Vec<char>) -> (r: bool)
    ensures
        r == is_package_arg(a@),
{
    !(a.len() > 0 && a[0] == '-') && !ends_with_str(a, ".txt") && !ends_with_str(a, ".toml")
        && !ends_with_str(a, ".json")
}

/// Returns the packages to scan if `args` are an install command, or
/// `None` if the command should pass through immediately (e.g. `pip list`).
pub fn extract_packages(pm: &PackageManager, args: &[String]) -> (r: Option<Vec<PackageArg>>)
    ensures
        match r {
            Some(v) => extract_spec(*pm, string_views(args@)) == Some(arg_views(v@)),
            None => extract_spec(*pm, string_views(args@)) is None,
        },
{
    let ghost av = string_views(args@);
    if args.len() == 0 {
        return None;
    }
    let sub = chars_of(args[0].as_str());
    if !is_install_v(*pm, &sub) {
        return None;
    }
    let ghost rest = av.drop_first();
    let mut out: Vec<PackageArg> = Vec::new();
    let n = args.len();
    let mut i: usize = 1;
    assert(av.skip(1) =~= rest);
    while i < n
        invariant
            1 <= i <= n,
            n == args@.len(),
            av == string_views(args@),
            rest == av.drop_first(),
            package_specs(*pm, rest) == arg_views(out@) + package_specs(*pm, av.skip(i as int)),
        decreases n - i,
    {
        let a = chars_of(args[i].as_str());
        let ghost tail = av.skip(i as int);
        assert(tail[0] == a@);
        assert(tail.drop_first() =~= av.skip(i + 1));
        let ghost old_out = out@;
        if is_package_arg_v(&a) {
            let p = parse_package_spec(pm, args[i].as_str());
            out.push(p);
            assert(arg_views(out@) =~= arg_views(old_out).push(p@));
            assert(arg_views(old_out) + (seq![p@] + package_specs(*pm, av.skip(i + 1)))
                =~= arg_views(out@) + package_specs(*pm, av.skip(i + 1)));
        }
        i = i + 1;
    }
    assert(av.skip(n as int) =~= Seq::<Seq<char>>::empty());
    assert(arg_views(out@) + Seq::<ArgSpec>::empty() =~= arg_views(out@));
    if out.len() == 0 {
        None
    } else {
        Some(out)
    }
}


/// No argument after the subcommand names a package.
pub open spec fn names_no_package(args: Seq<Seq<char>>) -> bool {
    forall|j: int| 1 <= j < args.len() ==> !is_package_arg(#[trigger] args[j])
}

/// `args` make `pm` install everything its manifest lists, naming no
/// package: `npm install`, `pnpm install`, `yarn`, `pip install` (with no
/// package, as with `-r requirements.txt`), `uv sync`, `poetry install`,
/// `go mod download`, `cargo build`, `cargo fetch`, `cargo check`.
pub open spec fn is_bare_restore(pm: PackageManager, args: Seq<Seq<char>>) -> bool {
    match pm {
        PackageManager::Npm => args.len() > 0 && (args[0] == "install"@ || args[0] == "i"@)
            && names_no_package(args),
        PackageManager::Pnpm | PackageManager::Pip => args.len() > 0 && args[0] == "install"@
            && names_no_package(args),
        PackageManager::Yarn => args.len() == 0 || (args[0] == "install"@ && names_no_package(
            args,
        )),
        PackageManager::Uv => args.len() > 0 && args[0] == "sync"@,
        PackageManager::Poetry => args.len() > 0 && args[0] == "install"@,
        PackageManager::Go => args.len() > 1 && args[0] == "mod"@ && args[1] == "download"@,
        PackageManager::Cargo => args.len() > 0 && (args[0] == "build"@ || args[0] == "fetch"@
            || args[0] == "check"@),
    }
}

/// The manifests to scan, in the order tried, before `pm` runs with `args`
/// when bare restore commands are intercepted; none for any other command.
pub open spec fn restore_manifests_spec(pm: PackageManager, args: Seq<Seq<char>>) -> Seq<
    Seq<char>,
> {
    if !is_bare_restore(pm, args) {
        seq![]
    } else {
        match pm {
            PackageManager::Npm | PackageManager::Pnpm | PackageManager::Yarn => seq![
                "package.json"@,
            ],
            PackageManager::Pip | PackageManager::Uv => seq!["requirements.txt"@, "pyproject.toml"@],
            PackageManager::Poetry => seq!["pyproject.toml"@],
            PackageManager::Go => seq!["go.mod"@],
            PackageManager::Cargo => seq!["Cargo.toml"@],
        }
    }
}

fn names_no_package_v(args: &[String]) -> (r: bool)
    ensures
        r == names_no_package(string_views(args@)),
{
    let ghost av = string_views(args@);
    let n = args.len();
    let mut i: usize = 1;
    while i < n
        invariant
            1 <= i,
            n == args@.len(),
            av == string_views(args@),
            forall|j: int| 1 <= j < i && j < n ==> !is_package_arg(#[trigger] av[j]),
        decreases n - i,
    {
        let a = chars_of(args[i].as_str());
        assert(av[i as int] == a@);
        if is_package_arg_v(&a) {
            return false;
        }
        i = i + 1;
    }
    true
}

fn arg_is(args: &[String], i: usize, word: &str) -> (r: bool)
    requires
        i < args@.len(),
    ensures
        r == (string_views(args@)[i as int] == word@),
{
    let a = chars_of(args[i].as_str());
    eq_str(&a, word)
}

fn bare_restore_v(pm: PackageManager, args: &[String]) -> (r: bool)
    ensures
        r == is_bare_restore(pm, string_views(args@)),
{
    let n = args.len();
    match pm {
        PackageManager::Npm => n > 0 && (arg_is(args, 0, "install") || arg_is(args, 0, "i"))
            && names_no_package_v(args),
        PackageManager::Pnpm | PackageManager::Pip => n > 0 && arg_is(args, 0, "install")
            && names_no_package_v(args),
        PackageManager::Yarn => n == 0 || (arg_is(args, 0, "install") && names_no_package_v(args)),
        PackageManager::Uv => n > 0 && arg_is(args, 0, "sync"),
        PackageManager::Poetry => n > 0 && arg_is(args, 0, "install"),
        PackageManager::Go => n > 1 && arg_is(args, 0, "mod") && arg_is(args, 1, "download"),
        PackageManager::Cargo => n > 0 && (arg_is(args, 0, "build") || arg_is(args, 0, "fetch")
            || arg_is(args, 0, "check")),
    }
}

/// The manifests to scan, in the order tried, before `pm` runs with
/// `args` when bare restore commands are intercepted (`intercept-restore`);
/// empty for any other command.
pub fn restore_manifests(pm: &PackageManager, args: &[String]) -> (r: Vec<String>)
    ensures
        string_views(r@) == restore_manifests_spec(*pm, string_views(args@)),
{
    let mut r: Vec<String> = Vec::new();
    if !bare_restore_v(*pm, args) {
        assert(string_views(r@) =~= Seq::<Seq<char>>::empty());
        return r;
    }
    match pm {
        PackageManager::Npm | PackageManager::Pnpm | PackageManager::Yarn => {
            r.push(String::from_str("package.json"));
        },
        PackageManager::Pip | PackageManager::Uv => {
            r.push(String::from_str("requirements.txt"));
            r.push(String::from_str("pyproject.toml"));
        },
        PackageManager::Poetry => {
            r.push(String::from_str("pyproject.toml"));
        },
        PackageManager::Go => {
            r.push(String::from_str("go.mod"));
        },
        PackageManager::Cargo => {
            r.push(String::from_str("Cargo.toml"));
        },
    }
    assert(string_views(r@) =~= restore_manifests_spec(*pm, string_views(args@)));
    r
}

proof fn lemma_no_package_specs(pm: PackageManager, args: Seq<Seq<char>>)
    requires
        forall|j: int| 0 <= j < args.len() ==> !is_package_arg(#[trigger] args[j]),
    ensures
        package_specs(pm, args).len() == 0,
    decreases args.len(),
{
    if args.len() > 0 {
        assert(!is_package_arg(args[0]));
        assert forall|j: int| 0 <= j < args.drop_first().len() implies !is_package_arg(
            #[trigger] args.drop_first()[j],
        ) by {
            assert(args.drop_first()[j] == args[j + 1]);
        }
        lemma_no_package_specs(pm, args.drop_first());
    }
}

/// A bare restore command names no package to scan: whenever manifests
/// are listed for it, the install command itself yields no packages, so
/// the two kinds of scan never overlap.
pub proof fn law_restore_names_no_package(pm: PackageManager, args: Seq<Seq<char>>)
    requires
        restore_manifests_spec(pm, args).len() > 0,
    ensures
        extract_spec(pm, args) is None,
{
    reveal_strlit("install");
    reveal_strlit("i");
    reveal_strlit("add");
    reveal_strlit("sync");
    reveal_strlit("get");
    reveal_strlit("mod");
    reveal_strlit("build");
    reveal_strlit("fetch");
    reveal_strlit("check");
    if names_no_package(args) && args.len() > 0 {
        let rest = args.drop_first();
        assert forall|j: int| 0 <= j < rest.len() implies !is_package_arg(#[trigger] rest[j]) by {
            assert(rest[j] == args[j + 1]);
        }
        lemma_no_package_specs(pm, rest);
    }
    if args.len() > 0 {
        let a = args[0];
        match pm {
            PackageManager::Uv => {
                assert(a[0] != "install"@[0]);
            },
            PackageManager::Poetry => {
                assert(a.len() != "add"@.len());
            },
            PackageManager::Go => {
                assert(a[0] != "get"@[0]);
            },
            PackageManager::Yarn => {
                assert(a.len() != "add"@.len());
            },
            PackageManager::Cargo => {
                assert(a.len() != "add"@.len());
                assert(!is_install(pm, a));
            },
            _ => {},
        }
        assert(extract_spec(pm, args) is None);
    }
}

/// `x` is what one of `args` that names a package reads as.
pub open spec fn named_in(pm: PackageManager, args: Seq<Seq<char>>, x: ArgSpec) -> bool {
    exists|j: int| 0 <= j < args.len() && is_package_arg(args[j]) && x == package_spec(pm, #[trigger] args[j])
}

proof fn lemma_specs_named(pm: PackageManager, args: Seq<Seq<char>>)
    ensures
        forall|i: int|
            0 <= i < package_specs(pm, args).len() ==> named_in(pm, args, #[trigger] package_specs(pm, args)[i]),
    decreases args.len(),
{
    if args.len() > 0 {
        let rest = args.drop_first();
        lemma_specs_named(pm, rest);
        let out = package_specs(pm, args);
        assert forall|i: int| 0 <= i < out.len() implies named_in(pm, args, #[trigger] out[i]) by {
            let k: int = if is_package_arg(args[0]) {
                i - 1
            } else {
                i
            };
            if k < 0 {
                assert(out[i] == package_spec(pm, args[0]));
            } else {
                assert(out[i] == package_specs(pm, rest)[k]);
                assert(named_in(pm, rest, package_specs(pm, rest)[k]));
                let j = choose|j: int|
                    0 <= j < rest.len() && is_package_arg(rest[j]) && package_specs(pm, rest)[k]
                        == package_spec(pm, #[trigger] rest[j]);
                assert(rest[j] == args[j + 1]);
                assert(out[i] == package_spec(pm, args[j + 1]));
            }
        }
    }
}

/// Packages are scanned only for an install subcommand, and each one is
/// read from an argument after it that is neither an option nor a
/// manifest file; a command that names none passes through.
pub proof fn law_extracted_from_arguments(pm: PackageManager, args: Seq<Seq<char>>)
    ensures
        match extract_spec(pm, args) {
            Some(ps) => {
                &&& is_install(pm, args[0])
                &&& ps.len() > 0
                &&& forall|i: int| 0 <= i < ps.len() ==> named_in(pm, args.drop_first(), #[trigger] ps[i])
            },
            None => args.len() == 0 || !is_install(pm, args[0]) || package_specs(
                pm,
                args.drop_first(),
            ).len() == 0,
        },
{
    if args.len() > 0 {
        lemma_specs_named(pm, args.drop_first());
    }
}

/// For npm, yarn, pnpm, go and cargo a spec reads back exactly: the name,
/// then `@` and the version when there is one.
pub proof fn law_at_spec_reads_back(pm: PackageManager, spec: Seq<char>)
    requires
        !is_python(pm),
    ensures
        match package_spec(pm, spec).version {
            Some(v) => package_spec(pm, spec).name + seq!['@'] + v == spec,
            None => package_spec(pm, spec).name == spec,
        },
{
    lemma_char_pos_props(spec, '@');
    let k = char_pos(spec, '@');
    if k < spec.len() {
        assert(spec.take(k as int) + seq!['@'] + spec.skip(k + 1 as int) =~= spec);
    }
}

/// A sequence without `/` has no `/` to stand after.
proof fn lemma_after_last_slash_none(n: Seq<char>)
    requires
        lacks(n, '/'),
    ensures
        after_last_slash(n) == 0,
    decreases n.len(),
{
    if n.len() > 0 {
        assert(n.last() == n[n.len() - 1]);
        assert forall|j: int| 0 <= j < n.drop_last().len() implies n.drop_last()[j] != '/' by {
            assert(n.drop_last()[j] == n[j]);
        }
        lemma_after_last_slash_none(n.drop_last());
    }
}

/// After a directory ending in `/`, a `/`-free name starts just past it.
proof fn lemma_after_last_slash_concat(a: Seq<char>, n: Seq<char>)
    requires
        a.len() > 0,
        a.last() == '/',
        lacks(n, '/'),
    ensures
        after_last_slash(a + n) == a.len(),
    decreases n.len(),
{
    if n.len() == 0 {
        assert(a + n =~= a);
    } else {
        assert((a + n).last() == n[n.len() - 1]);
        assert((a + n).drop_last() =~= a + n.drop_last());
        assert forall|j: int| 0 <= j < n.drop_last().len() implies n.drop_last()[j] != '/' by {
            assert(n.drop_last()[j] == n[j]);
        }
        lemma_after_last_slash_concat(a, n.drop_last());
    }
}

/// The command names of the package managers: none holds `/`, none is `.`
/// or `..`, and `pm_from_name` reads each back.
proof fn lemma_pm_names(pm: PackageManager)
    ensures
        pm_name(pm).len() > 0,
        lacks(pm_name(pm), '/'),
        pm_name(pm) != "."@,
        pm_name(pm) != ".."@,
        pm_from_name(pm_name(pm)) == Some(pm),
{
    reveal_strlit("pip");
    reveal_strlit("pip3");
    reveal_strlit("uv");
    reveal_strlit("poetry");
    reveal_strlit("npm");
    reveal_strlit("yarn");
    reveal_strlit("pnpm");
    reveal_strlit("go");
    reveal_strlit("cargo");
    reveal_strlit(".");
    reveal_strlit("..");
    let n = pm_name(pm);
    assert(n[0] != "."@[0]);
    assert(n[0] != ".."@[0]);
    match pm {
        PackageManager::Npm => {
            assert(n[0] != "pip"@[0]);
        },
        PackageManager::Yarn => {
            assert(n[0] != "pip3"@[0]);
        },
        PackageManager::Pnpm => {
            assert(n[1] != "pip3"@[1]);
            assert(n[0] != "yarn"@[0]);
        },
        PackageManager::Go => {
            assert(n[0] != "uv"@[0]);
        },
        PackageManager::Poetry => {
            assert(n.len() == 6);
        },
        _ => {},
    }
}

/// `from_argv0` inverts `name`: invoking a shim by a package manager's
/// name, bare or under any directory, stands for that package manager.
pub proof fn law_from_argv0_inverts_name(pm: PackageManager, dir: Seq<char>)
    ensures
        pm_from_name(argv0_name(pm_name(pm))) == Some(pm),
        pm_from_name(argv0_name(dir + seq!['/'] + pm_name(pm))) == Some(pm),
{
    let n = pm_name(pm);
    lemma_pm_names(pm);
    assert(n.last() == n[n.len() - 1]);
    assert(trim_end_char(n, '/') == n);
    lemma_after_last_slash_none(n);
    assert(n.skip(0) =~= n);
    assert(file_name(n) == Some(n));
    let a = dir + seq!['/'];
    let p = a + n;
    assert(p.last() == n[n.len() - 1]);
    assert(trim_end_char(p, '/') == p);
    lemma_after_last_slash_concat(a, n);
    assert(p.skip(a.len() as int) =~= n);
    assert(file_name(p) == Some(n));
    assert(dir + seq!['/'] + n == p);
}

/// An invocation is taken for a package manager only when its final path
/// component is that package manager's name, or `pip3` for pip.
pub proof fn law_from_argv0_needs_a_name(argv0: Seq<char>)
    ensures
        match pm_from_name(argv0_name(argv0)) {
            Some(pm) => argv0_name(argv0) == pm_name(pm) || (pm == PackageManager::Pip
                && argv0_name(argv0) == "pip3"@),
            None => true,
        },
{
}

/// The install subcommands are exactly: `install` for pip and uv, `add`
/// for poetry, `install`, `i` or `add` for npm, `add` for yarn, `add` or
/// `install` for pnpm, `get` for go, `add` for cargo.  A command made of
/// such a subcommand and one plain package argument is scanned; with any
/// other subcommand it passes through.
pub proof fn law_install_subcommands(pm: PackageManager, sub: Seq<char>, package: Seq<char>)
    requires
        is_package_arg(package),
    ensures
        extract_spec(pm, seq![sub, package]) is Some <==> match pm {
            PackageManager::Pip | PackageManager::Uv => sub == "install"@,
            PackageManager::Poetry => sub == "add"@,
            PackageManager::Npm => sub == "install"@ || sub == "i"@ || sub == "add"@,
            PackageManager::Yarn => sub == "add"@,
            PackageManager::Pnpm => sub == "add"@ || sub == "install"@,
            PackageManager::Go => sub == "get"@,
            PackageManager::Cargo => sub == "add"@,
        },
        extract_spec(pm, seq![sub, package]) is Some ==> extract_spec(pm, seq![sub, package])->0
            == seq![package_spec(pm, package)],
{
    let args = seq![sub, package];
    let rest = args.drop_first();
    assert(rest =~= seq![package]);
    assert(rest.drop_first() =~= Seq::<Seq<char>>::empty());
    assert(package_specs(pm, rest.drop_first()) == Seq::<ArgSpec>::empty());
    assert(package_specs(pm, rest) =~= seq![package_spec(pm, package)]);
}

/// `k` is the first requirement delimiter when no earlier character is one.
proof fn lemma_spec_delim_pos(s: Seq<char>, k: int)
    requires
        0 <= k <= s.len(),
        forall|j: int| 0 <= j < k ==> !is_spec_delim(#[trigger] s[j]),
        k == s.len() || is_spec_delim(s[k]),
    ensures
        spec_delim_pos(s) == k,
    decreases k,
{
    if k > 0 {
        assert(!is_spec_delim(s[0]));
        let t = s.drop_first();
        assert forall|j: int| 0 <= j < k - 1 implies !is_spec_delim(#[trigger] t[j]) by {
            assert(t[j] == s[j + 1]);
        }
        lemma_spec_delim_pos(t, k - 1);
    }
}

/// For pip, uv and poetry a spec `name==version` names `name` pinned to
/// `version`, and a bare `name` names it with no version.  The name holds
/// none of `= > < ! [` and no surrounding whitespace; the version holds no
/// whitespace.
pub proof fn law_python_pin(pm: PackageManager, name: Seq<char>, version: Seq<char>)
    requires
        is_python(pm),
        name.len() > 0,
        !is_ws(name[0]),
        !is_ws(name.last()),
        forall|j: int| 0 <= j < name.len() ==> !is_spec_delim(#[trigger] name[j]),
        version.len() > 0,
        forall|j: int| 0 <= j < version.len() ==> !is_ws(#[trigger] version[j]),
    ensures
        package_spec(pm, name + seq!['=', '='] + version) == (ArgSpec {
            name,
            version: Some(version),
        }),
        package_spec(pm, name) == (ArgSpec { name, version: None }),
{
    reveal_strlit("==");
    let n = name.len();
    let s = name + seq!['=', '='] + version;
    assert forall|j: int| 0 <= j < n implies !is_spec_delim(#[trigger] s[j]) by {
        assert(s[j] == name[j]);
    }
    assert(s[n as int] == '=');
    lemma_spec_delim_pos(s, n as int);
    assert(s.take(n as int) =~= name);
    crate::text::lemma_trim_clean(name);
    assert forall|j: int| 0 <= j < n implies #[trigger] s[j] != "=="@[0] by {
        assert(!is_spec_delim(s[j]));
    }
    crate::text::lemma_find_after(s, "=="@, n);
    assert(s.subrange(n as int, n + 2 as int) =~= "=="@);
    assert(s.skip(n + 2 as int) =~= version);
    crate::text::lemma_single_token(version);
    // The bare name.
    lemma_spec_delim_pos(name, n as int);
    assert(name.take(n as int) =~= name);
    assert forall|j: int| 0 <= j < n implies #[trigger] name[j] != "=="@[0] by {
        assert(!is_spec_delim(name[j]));
    }
    crate::text::lemma_find_from_skip(name, "=="@, 0, n);
}

/// An ecosystem that `primer scan` and `primer allow` accept.
#[derive(Debug, PartialEq, Eq, Structural, Clone, Copy)]
pub enum Ecosystem {
    PyPI,
    Npm,
    Go,
    Cargo,
}

/// The advisory-database name of `e`.
pub open spec fn osv_name(e: Ecosystem) -> Seq<char> {
    match e {
        Ecosystem::PyPI => "PyPI"@,
        Ecosystem::Npm => "npm"@,
        Ecosystem::Go => "Go"@,
        Ecosystem::Cargo => "crates.io"@,
    }
}

impl Ecosystem {
    /// The advisory-database name of this ecosystem.
    pub fn as_osv_str(&self) -> (r: &'static str)
        ensures
            r@ == osv_name(*self),
    {
        match self {
            Ecosystem::PyPI => "PyPI",
            Ecosystem::Npm => "npm",
            Ecosystem::Go => "Go",
            Ecosystem::Cargo => "crates.io",
        }
    }
}

} // verus!
