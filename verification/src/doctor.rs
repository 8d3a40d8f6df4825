//! `primer doctor`: where the shim directory and the version managers'
//! directories stand in `$PATH`.

use vstd::prelude::*;
use crate::text::{
    char_pos, char_pos_v, chars_of, contains, contains_str, copy_range, eq_str, eq_v, starts_with,
    starts_with_str, string_views, views,
};

verus! {

/// The components of a path, as `Path::components` compares them: whether
/// it starts at the root, whether it starts with a `.` component, and its
/// other components (empty and `.` ones dropped).
pub struct PathParts {
    pub root: bool,
    pub cur: bool,
    pub segs: Seq<Seq<char>>,
}

/// The `/`-separated pieces of `s` that are neither empty nor `.`.
pub open spec fn segments(s: Seq<char>) -> Seq<Seq<char>>
    decreases s.len(),
{
    let k = char_pos(s, '/');
    let head = s.take(k as int);
    let tail = if k < s.len() {
        segments(s.skip(k + 1 as int))
    } else {
        seq![]
    };
    if head.len() == 0 || head == "."@ {
        tail
    } else {
        seq![head] + tail
    }
}

/// The components of the path `s`.
pub open spec fn parts(s: Seq<char>) -> PathParts {
    let root = s.len() > 0 && s[0] == '/';
    PathParts { root, cur: !root && (s == "."@ || starts_with(s, "./"@)), segs: segments(s) }
}

/// `a` and `b` name the same path component by component, as `Path`'s
/// `==`.
pub open spec fn same_path(a: Seq<char>, b: Seq<char>) -> bool {
    parts(a) == parts(b)
}

/// The version managers whose directories should come after the shims.
pub open spec fn version_managers() -> Seq<Seq<char>> {
    seq!["nvm"@, "pyenv"@, "asdf"@, "volta"@, "fnm"@, "rtx"@, "mise"@]
}

/// The first index in `dirs`, from `i` on, of a directory that is the path
/// `target`.
pub open spec fn first_same(dirs: Seq<Seq<char>>, target: Seq<char>, i: nat) -> Option<nat>
    decreases dirs.len() - i,
{
    if i >= dirs.len() {
        None
    } else if same_path(dirs[i as int], target) {
        Some(i)
    } else {
        first_same(dirs, target, i + 1)
    }
}

/// The first index in `dirs`, from `i` on, of a directory whose text
/// contains `name`.
pub open spec fn first_containing(dirs: Seq<Seq<char>>, name: Seq<char>, i: nat) -> Option<nat>
    decreases dirs.len() - i,
{
    if i >= dirs.len() {
        None
    } else if contains(dirs[i as int], name) {
        Some(i)
    } else {
        first_containing(dirs, name, i + 1)
    }
}

/// For each of `vms` in order that some directory mentions, the manager
/// and the first position that mentions it.
pub open spec fn manager_positions(dirs: Seq<Seq<char>>, vms: Seq<Seq<char>>) -> Seq<(Seq<char>, nat)>
    decreases vms.len(),
{
    if vms.len() == 0 {
        seq![]
    } else {
        match first_containing(dirs, vms[0], 0) {
            Some(p) => seq![(vms[0], p)] + manager_positions(dirs, vms.drop_first()),
            None => manager_positions(dirs, vms.drop_first()),
        }
    }
}

/// Where the shim directory and the version managers stand in `$PATH`.
#[derive(Debug)]
pub struct PathOrder {
    /// Position of the shim directory, if it is in `$PATH`.
    pub primer_pos: Option<usize>,
    /// Each version manager found, with the first position that mentions it.
    pub managers: Vec<(String, usize)>,
}

/// The view of a manager-position list.
pub open spec fn position_views(s: Seq<(String, usize)>) -> Seq<(Seq<char>, nat)> {
    s.map_values(|p: (String, usize)| (p.0@, p.1 as nat))
}

/// The `/`-separated pieces of `s` that are neither empty nor `.`.
fn segments_v(s: &Vec<char>) -> (r: Vec<Vec<char>>)
    ensures
        views(r@) == segments(s@),
{
    let mut out: Vec<Vec<char>> = Vec::new();
    let mut rest = copy_range(s, 0, s.len());
    assert(rest@ =~= s@);
    loop
        invariant
            segments(s@) == views(out@) + segments(rest@),
        decreases rest@.len(),
    {
        let k = char_pos_v(&rest, '/');
        let head = copy_range(&rest, 0, k);
        assert(head@ =~= rest@.take(k as int));
        let keep = !(head.len() == 0 || eq_str(&head, "."));
        let ghost old_out = out@;
        if keep {
            out.push(head);
            assert(views(out@) =~= views(old_out).push(head@));
        }
        if k < rest.len() {
            let next = copy_range(&rest, k + 1, rest.len());
            assert(next@ =~= rest@.skip(k + 1 as int));
            proof {
                if keep {
                    assert(views(old_out) + (seq![head@] + segments(next@)) =~= views(out@)
                        + segments(next@));
                }
            }
            rest = next;
        } else {
            proof {
                if keep {
                    assert(views(old_out) + (seq![head@] + Seq::<Seq<char>>::empty())
                        =~= views(out@));
                } else {
                    assert(views(old_out) + Seq::<Seq<char>>::empty() =~= views(out@));
                }
            }
            return out;
        }
    }
}

fn seqs_eq_v(a: &Vec<Vec<char>>, b: &Vec<Vec<char>>) -> (r: bool)
    ensures
        r == (views(a@) == views(b@)),
{
    if a.len() != b.len() {
        assert(views(a@).len() != views(b@).len());
        return false;
    }
    let n = a.len();
    let mut i: usize = 0;
    while i < n
        invariant
            i <= n,
            n == a@.len(),
            n == b@.len(),
            forall|j: int| 0 <= j < i ==> a@[j]@ == b@[j]@,
        decreases n - i,
    {
        if !eq_v(&a[i], &b[i]) {
            assert(views(a@)[i as int] != views(b@)[i as int]);
            return false;
        }
        i = i + 1;
    }
    assert(views(a@) =~= views(b@));
    true
}

/// Whether `a` and `b` name the same path, component by component.
pub fn same_path_v(a: &str, b: &str) -> (r: bool)
    ensures
        r == same_path(a@, b@),
{
    let av = chars_of(a);
    let bv = chars_of(b);
    let a_root = av.len() > 0 && av[0] == '/';
    let b_root = bv.len() > 0 && bv[0] == '/';
    let a_cur = !a_root && (eq_str(&av, ".") || starts_with_str(&av, "./"));
    let b_cur = !b_root && (eq_str(&bv, ".") || starts_with_str(&bv, "./"));
    let sa = segments_v(&av);
    let sb = segments_v(&bv);
    a_root == b_root && a_cur == b_cur && seqs_eq_v(&sa, &sb)
}

/// Where the shim directory `ms_bin` and the version managers (nvm, pyenv,
/// asdf, volta, fnm, rtx, mise) stand in the `$PATH` entries `dirs`.
pub fn path_order(dirs: &[String], ms_bin: &str) -> (r: PathOrder)
    ensures
        match r.primer_pos {
            Some(p) => first_same(string_views(dirs@), ms_bin@, 0) == Some(p as nat),
            None => first_same(string_views(dirs@), ms_bin@, 0) is None,
        },
        position_views(r.managers@) == manager_positions(string_views(dirs@), version_managers()),
{
    let ghost dv = string_views(dirs@);
    let n = dirs.len();
    let mut primer_pos: Option<usize> = None;
    let mut i: usize = 0;
    while i < n && primer_pos.is_none()
        invariant
            i <= n,
            n == dirs@.len(),
            dv == string_views(dirs@),
            match primer_pos {
                Some(p) => first_same(dv, ms_bin@, 0) == Some(p as nat),
                None => first_same(dv, ms_bin@, 0) == first_same(dv, ms_bin@, i as nat),
            },
        decreases n - i,
    {
        if same_path_v(dirs[i].as_str(), ms_bin) {
            primer_pos = Some(i);
        }
        i = i + 1;
    }
    let vms: [&str; 7] = ["nvm", "pyenv", "asdf", "volta", "fnm", "rtx", "mise"];
    let mut managers: Vec<(String, usize)> = Vec::new();
    let mut k: usize = 0;
    assert(version_managers().skip(0) =~= version_managers());
    while k < 7
        invariant
            k <= 7,
            n == dirs@.len(),
            dv == string_views(dirs@),
            forall|j: int| 0 <= j < 7 ==> (#[trigger] vms@[j])@ == version_managers()[j],
            match primer_pos {
                Some(p) => first_same(dv, ms_bin@, 0) == Some(p as nat),
                None => first_same(dv, ms_bin@, 0) is None,
            },
            manager_positions(dv, version_managers()) == position_views(managers@)
                + manager_positions(dv, version_managers().skip(k as int)),
        decreases 7 - k,
    {
        let vm = vms[k];
        let ghost rest = version_managers().skip(k as int);
        assert(rest[0] == vm@);
        assert(rest.drop_first() =~= version_managers().skip(k + 1));
        let mut j: usize = 0;
        let mut found: Option<usize> = None;
        while j < n && found.is_none()
            invariant
                j <= n,
                n == dirs@.len(),
                dv == string_views(dirs@),
                match found {
                    Some(p) => first_containing(dv, vm@, 0) == Some(p as nat),
                    None => first_containing(dv, vm@, 0) == first_containing(dv, vm@, j as nat),
                },
            decreases n - j,
        {
            if contains_str(&chars_of(dirs[j].as_str()), vm) {
                found = Some(j);
            }
            j = j + 1;
        }
        let ghost old_m = managers@;
        match found {
            Some(p) => {
                let entry = (String::from_str(vm), p);
                managers.push(entry);
                assert(position_views(managers@) =~= position_views(old_m).push((vm@, p as nat)));
                assert(position_views(old_m) + (seq![(vm@, p as nat)] + manager_positions(
                    dv,
                    version_managers().skip(k + 1),
                )) =~= position_views(managers@) + manager_positions(
                    dv,
                    version_managers().skip(k + 1),
                ));
            },
            None => {},
        }
        k = k + 1;
    }
    assert(version_managers().skip(7) =~= Seq::<Seq<char>>::empty());
    assert(position_views(managers@) + Seq::<(Seq<char>, nat)>::empty() =~= position_views(
        managers@,
    ));
    PathOrder { primer_pos, managers }
}

/// What the first-match search from `i` finds: a directory that is the
/// path `target`, with none before it from `i` on; or nothing when no
/// directory from `i` on is that path.
proof fn lemma_first_same(dirs: Seq<Seq<char>>, target: Seq<char>, i: nat)
    ensures
        match first_same(dirs, target, i) {
            Some(p) => i <= p < dirs.len() && same_path(dirs[p as int], target) && forall|j: int|
                i <= j < p ==> !same_path(#[trigger] dirs[j], target),
            None => forall|j: int| i <= j < dirs.len() ==> !same_path(#[trigger] dirs[j], target),
        },
    decreases dirs.len() - i,
{
    if i < dirs.len() && !same_path(dirs[i as int], target) {
        lemma_first_same(dirs, target, i + 1);
    }
}

/// What the first-mention search from `i` finds: a directory whose text
/// contains `name`, with none before it from `i` on; or nothing.
proof fn lemma_first_containing(dirs: Seq<Seq<char>>, name: Seq<char>, i: nat)
    ensures
        match first_containing(dirs, name, i) {
            Some(p) => i <= p < dirs.len() && contains(dirs[p as int], name) && forall|j: int|
                i <= j < p ==> !contains(#[trigger] dirs[j], name),
            None => forall|j: int| i <= j < dirs.len() ==> !contains(#[trigger] dirs[j], name),
        },
    decreases dirs.len() - i,
{
    if i < dirs.len() && !contains(dirs[i as int], name) {
        lemma_first_containing(dirs, name, i + 1);
    }
}

/// The shim directory's reported position is the first `$PATH` entry that
/// is the same path as the shim directory; none is reported exactly when
/// no entry is.
pub proof fn law_primer_position_is_first_match(dirs: Seq<Seq<char>>, ms_bin: Seq<char>)
    ensures
        match first_same(dirs, ms_bin, 0) {
            Some(p) => p < dirs.len() && same_path(dirs[p as int], ms_bin) && forall|j: int|
                0 <= j < p ==> !same_path(#[trigger] dirs[j], ms_bin),
            None => forall|j: int| 0 <= j < dirs.len() ==> !same_path(#[trigger] dirs[j], ms_bin),
        },
{
    lemma_first_same(dirs, ms_bin, 0);
}

/// Each version manager reported is one of `vms`, paired with the first
/// `$PATH` entry that mentions it; a manager that some entry mentions is
/// reported.
pub proof fn law_managers_at_first_mention(dirs: Seq<Seq<char>>, vms: Seq<Seq<char>>)
    ensures
        forall|i: int|
            0 <= i < manager_positions(dirs, vms).len() ==> {
                let (vm, p) = #[trigger] manager_positions(dirs, vms)[i];
                &&& vms.contains(vm)
                &&& p < dirs.len()
                &&& contains(dirs[p as int], vm)
                &&& forall|j: int| 0 <= j < p ==> !contains(#[trigger] dirs[j], vm)
            },
        forall|k: int, j: int|
            0 <= k < vms.len() && 0 <= j < dirs.len() && #[trigger] contains(dirs[j], vms[k])
                ==> exists|i: int|
                0 <= i < manager_positions(dirs, vms).len() && (#[trigger] manager_positions(
                    dirs,
                    vms,
                )[i]).0 == vms[k],
    decreases vms.len(),
{
    if vms.len() > 0 {
        let rest = vms.drop_first();
        law_managers_at_first_mention(dirs, rest);
        lemma_first_containing(dirs, vms[0], 0);
        let out = manager_positions(dirs, vms);
        let tail = manager_positions(dirs, rest);
        let off: int = if first_containing(dirs, vms[0], 0) is Some {
            1
        } else {
            0
        };
        assert(out.len() == tail.len() + off);
        assert forall|i: int| off <= i < out.len() implies out[i] == tail[i - off] by {}
        assert forall|i: int| 0 <= i < out.len() implies {
            let (vm, p) = #[trigger] out[i];
            &&& vms.contains(vm)
            &&& p < dirs.len()
            &&& contains(dirs[p as int], vm)
            &&& forall|j: int| 0 <= j < p ==> !contains(#[trigger] dirs[j], vm)
        } by {
            if i >= off {
                assert(out[i] == tail[i - off]);
                let vm = tail[i - off].0;
                assert(rest.contains(vm));
                let m = choose|m: int| 0 <= m < rest.len() && rest[m] == vm;
                assert(vms[m + 1] == vm);
            } else {
                assert(vms[0] == out[i].0);
            }
        }
        assert forall|k: int, j: int|
            0 <= k < vms.len() && 0 <= j < dirs.len() && #[trigger] contains(dirs[j], vms[k])
                implies exists|i: int|
            0 <= i < out.len() && (#[trigger] out[i]).0 == vms[k] by {
            if k == 0 {
                assert(out[0].0 == vms[0]);
            } else {
                assert(rest[k - 1] == vms[k]);
                let i = choose|i: int| 0 <= i < tail.len() && (#[trigger] tail[i]).0 == rest[k - 1];
                assert(out[i + off] == tail[i]);
            }
        }
    }
}

proof fn lemma_segments_trailing_slash(a: Seq<char>)
    ensures
        segments(a + seq!['/']) == segments(a),
    decreases a.len(),
{
    let s = a + seq!['/'];
    crate::text::lemma_char_pos_props(a, '/');
    let k = char_pos(a, '/');
    if k < a.len() {
        crate::text::lemma_char_pos_concat(a, seq!['/'], '/');
        assert(s.take(k as int) =~= a.take(k as int));
        assert(s.skip(k + 1 as int) =~= a.skip(k + 1 as int) + seq!['/']);
        lemma_segments_trailing_slash(a.skip(k + 1 as int));
    } else {
        assert forall|j: int| 0 <= j < a.len() implies #[trigger] s[j] != '/' by {
            assert(s[j] == a[j]);
        }
        crate::text::lemma_char_pos(s, '/', a.len() as int);
        assert(s.take(a.len() as int) =~= a);
        assert(a.take(a.len() as int) =~= a);
        assert(s.skip(a.len() + 1 as int) =~= Seq::<char>::empty());
        let e = Seq::<char>::empty();
        assert(char_pos(e, '/') == 0);
        assert(e.take(0) =~= e);
        assert(segments(e) == Seq::<Seq<char>>::empty());
    }
}

/// A trailing `/` does not change which directory a path names, and a
/// `$PATH` entry equals itself: `same_path` is reflexive and ignores one
/// trailing slash (the empty path, which `/` would turn into the root,
/// aside).
pub proof fn law_same_path_trailing_slash(a: Seq<char>)
    requires
        a.len() > 0,
    ensures
        same_path(a, a),
        same_path(a, a + seq!['/']),
{
    reveal_strlit(".");
    reveal_strlit("./");
    lemma_segments_trailing_slash(a);
    let s = a + seq!['/'];
    assert(s[0] == a[0]);
    assert(s != "."@);
    if a == "."@ {
        assert(s =~= "./"@);
        assert(s.take(2) =~= "./"@);
    }
    if starts_with(a, "./"@) {
        assert(s.take(2) =~= a.take(2));
    }
    if starts_with(s, "./"@) {
        if a.len() >= 2 {
            assert(a.take(2) =~= s.take(2));
        } else {
            assert(s.take(2)[0] == a[0]);
            assert(a =~= "."@);
        }
    }
}

} // verus!
