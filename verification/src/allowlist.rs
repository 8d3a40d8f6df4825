//! The allow-list (`.primer-ignore`): one package per line, either bare
//! (`requests`) or scoped to an ecosystem (`pypi:requests`); `#` starts a
//! comment line.  Matching ignores ASCII case.

use vstd::prelude::*;
use crate::text::{
    ascii_fold, chars_of, eq_ignore_ascii_case, eq_ignore_ascii_case_v, eq_v, extend_v, is_ws,
    char_pos, lacks, lemma_char_pos, lemma_char_pos_absent, lemma_char_pos_props, lemma_lines_concat, lemma_lines_lack_newline, lemma_lines_single,
    lemma_lines_single_cr, lemma_trim_clean, lemma_trim_strip_cr, lines, lines_v, lowercase,
    lowercase_v, opt_str_view, opt_view, split_once, split_once_v, string_views, strip_cr,
    to_string_v, trim, trim_v, views,
};

verus! {

/// The trimmed allow-list line `line` allows `package` of `ecosystem`.
pub open spec fn line_allows(line: Seq<char>, package: Seq<char>, ecosystem: Seq<char>) -> bool {
    &&& line.len() > 0
    &&& line[0] != '#'
    &&& match split_once(line, ':') {
        Some((eco, pkg)) => eq_ignore_ascii_case(eco, ecosystem) && eq_ignore_ascii_case(
            pkg,
            package,
        ),
        None => eq_ignore_ascii_case(line, package),
    }
}

/// Some line of `contents` allows `package` of `ecosystem`.
pub open spec fn allows(contents: Seq<char>, package: Seq<char>, ecosystem: Seq<char>) -> bool {
    exists|i: int|
        0 <= i < lines(contents).len() && line_allows(
            trim(#[trigger] lines(contents)[i]),
            package,
            ecosystem,
        )
}

fn line_allows_v(line: &Vec<char>, package: &Vec<char>, ecosystem: &Vec<char>) -> (r: bool)
    ensures
        r == line_allows(line@, package@, ecosystem@),
{
    if line.len() == 0 || line[0] == '#' {
        return false;
    }
    match split_once_v(line, ':') {
        Some((eco, pkg)) => eq_ignore_ascii_case_v(&eco, ecosystem) && eq_ignore_ascii_case_v(
            &pkg,
            package,
        ),
        None => eq_ignore_ascii_case_v(line, package),
    }
}

/// Whether the allow-list `contents` allows `package` of `ecosystem`.
pub fn file_allows(contents: &str, package: &str, ecosystem: &str) -> (r: bool)
    ensures
        r == allows(contents@, package@, ecosystem@),
{
    let ls = lines_v(&chars_of(contents));
    let p = chars_of(package);
    let e = chars_of(ecosystem);
    let ghost lv = views(ls@);
    let n = ls.len();
    let mut i: usize = 0;
    while i < n
        invariant
            i <= n,
            n == ls@.len(),
            lv == views(ls@),
            lv == lines(contents@),
            p@ == package@,
            e@ == ecosystem@,
            forall|j: int| 0 <= j < i ==> !line_allows(trim(#[trigger] lv[j]), p@, e@),
        decreases n - i,
    {
        let line = trim_v(&ls[i]);
        assert(lv[i as int] == ls@[i as int]@);
        if line_allows_v(&line, &p, &e) {
            return true;
        }
        i = i + 1;
    }
    false
}

/// The lines of `ls` that name something: neither blank nor comments.
pub open spec fn visible(ls: Seq<Seq<char>>) -> Seq<Seq<char>>
    decreases ls.len(),
{
    if ls.len() == 0 {
        seq![]
    } else if trim(ls[0]).len() > 0 && trim(ls[0])[0] != '#' {
        seq![ls[0]] + visible(ls.drop_first())
    } else {
        visible(ls.drop_first())
    }
}

/// The visible entries are exactly the lines that are neither blank nor
/// comments: each one kept is such a line, and each such line is kept.
pub proof fn law_visible_entries(ls: Seq<Seq<char>>)
    ensures
        visible(ls).len() <= ls.len(),
        forall|i: int|
            0 <= i < visible(ls).len() ==> trim(#[trigger] visible(ls)[i]).len() > 0 && trim(
                visible(ls)[i],
            )[0] != '#' && ls.contains(visible(ls)[i]),
        forall|j: int|
            0 <= j < ls.len() && trim(#[trigger] ls[j]).len() > 0 && trim(ls[j])[0] != '#'
                ==> visible(ls).contains(ls[j]),
    decreases ls.len(),
{
    if ls.len() > 0 {
        let rest = ls.drop_first();
        law_visible_entries(rest);
        let out = visible(ls);
        let tail = visible(rest);
        let keep = trim(ls[0]).len() > 0 && trim(ls[0])[0] != '#';
        let off: int = if keep {
            1
        } else {
            0
        };
        assert forall|i: int| off <= i < out.len() implies out[i] == tail[i - off] by {}
        assert forall|i: int| 0 <= i < out.len() implies trim(#[trigger] out[i]).len() > 0 && trim(
            out[i],
        )[0] != '#' && ls.contains(out[i]) by {
            if i >= off {
                assert(out[i] == tail[i - off]);
                let m = choose|m: int| 0 <= m < rest.len() && rest[m] == tail[i - off];
                assert(ls[m + 1] == rest[m]);
            } else {
                assert(out[0] == ls[0]);
            }
        }
        assert forall|j: int|
            0 <= j < ls.len() && trim(#[trigger] ls[j]).len() > 0 && trim(ls[j])[0] != '#'
                implies out.contains(ls[j]) by {
            if j == 0 {
                assert(out[0] == ls[0]);
            } else {
                assert(rest[j - 1] == ls[j]);
                let i = choose|i: int| 0 <= i < tail.len() && tail[i] == rest[j - 1];
                assert(out[i + off] == tail[i]);
            }
        }
    }
}

/// The non-comment, non-blank lines of `contents`.
pub fn visible_entries(contents: &str) -> (r: Vec<String>)
    ensures
        string_views(r@) == visible(lines(contents@)),
{
    let ls = lines_v(&chars_of(contents));
    let ghost lv = views(ls@);
    let mut out: Vec<String> = Vec::new();
    let n = ls.len();
    let mut i: usize = 0;
    assert(lv.skip(0) =~= lv);
    while i < n
        invariant
            i <= n,
            n == ls@.len(),
            lv == views(ls@),
            lv == lines(contents@),
            visible(lv) == string_views(out@) + visible(lv.skip(i as int)),
        decreases n - i,
    {
        let ghost rest = lv.skip(i as int);
        assert(rest[0] == ls@[i as int]@);
        assert(rest.drop_first() =~= lv.skip(i + 1));
        let t = trim_v(&ls[i]);
        if t.len() > 0 && t[0] != '#' {
            let ghost old_out = out@;
            let s = to_string_v(&ls[i]);
            out.push(s);
            assert(string_views(out@) =~= string_views(old_out).push(
                s@,
            ));
            assert(string_views(old_out) + (seq![s@] + visible(lv.skip(i + 1)))
                =~= string_views(out@) + visible(lv.skip(i + 1)));
        }
        i = i + 1;
    }
    assert(lv.skip(n as int) =~= Seq::<Seq<char>>::empty());
    assert(string_views(out@) + Seq::<Seq<char>>::empty()
        =~= string_views(out@));
    out
}

/// The lines of `ls` whose trimmed text is not `target`, each followed by
/// a newline.
pub open spec fn kept_text(ls: Seq<Seq<char>>, target: Seq<char>) -> Seq<char>
    decreases ls.len(),
{
    if ls.len() == 0 {
        seq![]
    } else if trim(ls[0]) != target {
        ls[0] + seq!['\n'] + kept_text(ls.drop_first(), target)
    } else {
        kept_text(ls.drop_first(), target)
    }
}

/// Some line of `contents`, trimmed, is `target`.
pub open spec fn has_entry(contents: Seq<char>, target: Seq<char>) -> bool {
    exists|i: int| 0 <= i < lines(contents).len() && trim(#[trigger] lines(contents)[i]) == target
}

/// Filters `target` out of `contents`: the lines whose trimmed text is not
/// `target`, each ended by a newline, and whether some line was `target`.
pub fn filter_entry(contents: &str, target: &str) -> (r: (String, bool))
    ensures
        r.0@ == kept_text(lines(contents@), target@),
        r.1 == has_entry(contents@, target@),
{
    let c = chars_of(contents);
    let ls = lines_v(&c);
    let t = chars_of(target);
    let ghost lv = views(ls@);
    let mut out: Vec<char> = Vec::new();
    let mut found = false;
    let n = ls.len();
    let mut i: usize = 0;
    assert(lv.skip(0) =~= lv);
    while i < n
        invariant
            i <= n,
            n == ls@.len(),
            lv == views(ls@),
            lv == lines(contents@),
            t@ == target@,
            kept_text(lv, t@) == out@ + kept_text(lv.skip(i as int), t@),
            found == exists|j: int| 0 <= j < i && trim(#[trigger] lv[j]) == t@,
        decreases n - i,
    {
        let ghost rest = lv.skip(i as int);
        assert(rest[0] == ls@[i as int]@);
        assert(rest.drop_first() =~= lv.skip(i + 1));
        let line = trim_v(&ls[i]);
        let same = eq_v(&line, &t);
        assert(lv[i as int] == ls@[i as int]@);
        if same {
            found = true;
        }
        if !same {
            let ghost old_out = out@;
            let m = ls[i].len();
            let mut j: usize = 0;
            while j < m
                invariant
                    j <= m,
                    i < n,
                    n == ls@.len(),
                    m == ls@[i as int]@.len(),
                    out@ == old_out + ls@[i as int]@.take(j as int),
                decreases m - j,
            {
                out.push(ls[i][j]);
                j = j + 1;
                assert(out@ =~= old_out + ls@[i as int]@.take(j as int));
            }
            out.push('\n');
            assert(ls@[i as int]@.take(m as int) =~= ls@[i as int]@);
            assert(old_out + (ls@[i as int]@ + seq!['\n'] + kept_text(lv.skip(i + 1), t@))
                =~= out@ + kept_text(lv.skip(i + 1), t@));
        }
        i = i + 1;
    }
    assert(lv.skip(n as int) =~= Seq::<Seq<char>>::empty());
    assert(out@ + Seq::<char>::empty() =~= out@);
    (to_string_v(&out), found)
}


/// The allow-list line that names `package`, scoped to the lower-cased
/// `ecosystem` when one is given.
pub open spec fn entry_line(package: Seq<char>, ecosystem: Option<Seq<char>>) -> Seq<char> {
    match ecosystem {
        Some(e) => lowercase(e) + seq![':'] + package + seq!['\n'],
        None => package + seq!['\n'],
    }
}

/// Some line of `contents`, trimmed, equals the trimmed `entry`.
pub open spec fn listed(contents: Seq<char>, entry: Seq<char>) -> bool {
    exists|i: int|
        0 <= i < lines(contents).len() && trim(#[trigger] lines(contents)[i]) == trim(entry)
}

/// `existing` ready to take a new line: a newline added when it is
/// non-empty and does not end in one.
pub open spec fn line_start(existing: Seq<char>) -> Seq<char> {
    if existing.len() > 0 && existing.last() != '\n' {
        existing + seq!['\n']
    } else {
        existing
    }
}

/// The allow-list after adding `package`: unchanged (`None`) when the
/// entry is already listed, else the entry appended on a line of its own.
pub open spec fn add_result(existing: Seq<char>, package: Seq<char>, ecosystem: Option<Seq<char>>) -> Option<
    Seq<char>,
> {
    let e = entry_line(package, ecosystem);
    if listed(existing, e) {
        None
    } else {
        Some(line_start(existing) + e)
    }
}

/// What `remove` looks for: `package`, scoped to the lower-cased
/// `ecosystem` when one is given.
pub open spec fn removal_target(package: Seq<char>, ecosystem: Option<Seq<char>>) -> Seq<char> {
    match ecosystem {
        Some(e) => lowercase(e) + seq![':'] + package,
        None => package,
    }
}

/// The allow-list after removing `package`: `None` when no line names it,
/// else the remaining lines.
pub open spec fn remove_result(existing: Seq<char>, package: Seq<char>, ecosystem: Option<Seq<char>>) -> Option<
    Seq<char>,
> {
    let t = removal_target(package, ecosystem);
    if has_entry(existing, t) {
        Some(kept_text(lines(existing), t))
    } else {
        None
    }
}

fn scoped_v(package: &str, ecosystem: Option<&str>) -> (r: Vec<char>)
    ensures
        r@ == removal_target(package@, opt_str_view(ecosystem)),
{
    match ecosystem {
        Some(e) => {
            let mut r = lowercase_v(&chars_of(e));
            r.push(':');
            extend_v(&mut r, &chars_of(package));
            r
        },
        None => chars_of(package),
    }
}

/// The allow-list line (newline included) that names `package`.
pub fn entry(package: &str, ecosystem: Option<&str>) -> (r: String)
    ensures
        r@ == entry_line(package@, opt_str_view(ecosystem)),
{
    let mut v = scoped_v(package, ecosystem);
    v.push('\n');
    to_string_v(&v)
}

/// What `remove` looks for in the allow-list.
pub fn target(package: &str, ecosystem: Option<&str>) -> (r: String)
    ensures
        r@ == removal_target(package@, opt_str_view(ecosystem)),
{
    to_string_v(&scoped_v(package, ecosystem))
}

/// The allow-list `existing` with `package` added, or `None` when it is
/// already there.
pub fn add(existing: &str, package: &str, ecosystem: Option<&str>) -> (r: Option<String>)
    ensures
        opt_view(r) == add_result(existing@, package@, opt_str_view(ecosystem)),
{
    let e = entry(package, ecosystem);
    let ev = chars_of(e.as_str());
    let te = trim_v(&ev);
    let c = chars_of(existing);
    let ls = lines_v(&c);
    let ghost lv = views(ls@);
    let n = ls.len();
    let mut i: usize = 0;
    while i < n
        invariant
            i <= n,
            n == ls@.len(),
            lv == views(ls@),
            lv == lines(existing@),
            te@ == trim(entry_line(package@, opt_str_view(ecosystem))),
            forall|j: int| 0 <= j < i ==> trim(#[trigger] lv[j]) != te@,
        decreases n - i,
    {
        let t = trim_v(&ls[i]);
        assert(lv[i as int] == ls@[i as int]@);
        if eq_v(&t, &te) {
            return None;
        }
        i = i + 1;
    }
    let mut out = c;
    if out.len() > 0 && out[out.len() - 1] != '\n' {
        out.push('\n');
    }
    extend_v(&mut out, &ev);
    Some(to_string_v(&out))
}

/// The allow-list `existing` with `package` removed, or `None` when no
/// line names it.
pub fn remove(existing: &str, package: &str, ecosystem: Option<&str>) -> (r: Option<String>)
    ensures
        opt_view(r) == remove_result(existing@, package@, opt_str_view(ecosystem)),
{
    let t = target(package, ecosystem);
    let (filtered, found) = filter_entry(existing, t.as_str());
    if found {
        Some(filtered)
    } else {
        None
    }
}


/// A comment line allows nothing: a line whose trimmed text starts with
/// `#` matches no package of any ecosystem, and an allow-list made only of
/// comments and blank lines allows no package.
pub proof fn law_comments_allow_nothing(
    contents: Seq<char>,
    line: Seq<char>,
    package: Seq<char>,
    ecosystem: Seq<char>,
)
    ensures
        trim(line).len() > 0 && trim(line)[0] == '#' ==> !line_allows(trim(line), package, ecosystem),
        (forall|i: int|
            0 <= i < lines(contents).len() ==> trim(#[trigger] lines(contents)[i]).len() == 0
                || trim(lines(contents)[i])[0] == '#') ==> !allows(contents, package, ecosystem),
{
    if forall|i: int|
        0 <= i < lines(contents).len() ==> trim(#[trigger] lines(contents)[i]).len() == 0 || trim(
            lines(contents)[i],
        )[0] == '#' {
        if allows(contents, package, ecosystem) {
            let i = choose|i: int|
                0 <= i < lines(contents).len() && line_allows(
                    trim(#[trigger] lines(contents)[i]),
                    package,
                    ecosystem,
                );
            assert(trim(lines(contents)[i]).len() == 0 || trim(lines(contents)[i])[0] == '#');
        }
    }
}

/// A bare entry (no `:`, not a comment) allows exactly the package it
/// names, up to ASCII case, in every ecosystem; a scoped entry
/// `eco:name` allows exactly `name` in `eco`, both up to ASCII case.
pub proof fn law_entry_matching(
    name: Seq<char>,
    eco: Seq<char>,
    package: Seq<char>,
    ecosystem: Seq<char>,
)
    requires
        name.len() > 0,
        name[0] != '#',
        lacks(name, ':'),
    ensures
        line_allows(name, package, ecosystem) <==> eq_ignore_ascii_case(name, package),
        (eco.len() > 0 && eco[0] != '#' && lacks(eco, ':')) ==> (line_allows(
            eco + seq![':'] + name,
            package,
            ecosystem,
        ) <==> (eq_ignore_ascii_case(eco, ecosystem) && eq_ignore_ascii_case(name, package))),
{
    lemma_char_pos_absent(name, ':');
    if eco.len() > 0 && eco[0] != '#' && lacks(eco, ':') {
        let t = eco + seq![':'] + name;
        assert forall|j: int| 0 <= j < eco.len() implies #[trigger] t[j] != ':' by {
            assert(t[j] == eco[j]);
        }
        assert(t[eco.len() as int] == ':');
        lemma_char_pos(t, ':', eco.len() as int);
        assert(t.take(eco.len() as int) =~= eco);
        assert(t.skip(eco.len() + 1 as int) =~= name);
        assert(t[0] == eco[0]);
    }
}

/// Matching ignores ASCII case: names and ecosystems that differ only in
/// ASCII case are allowed alike.
pub proof fn law_allows_ignores_ascii_case(
    contents: Seq<char>,
    package: Seq<char>,
    ecosystem: Seq<char>,
    package2: Seq<char>,
    ecosystem2: Seq<char>,
)
    requires
        eq_ignore_ascii_case(package, package2),
        eq_ignore_ascii_case(ecosystem, ecosystem2),
    ensures
        allows(contents, package, ecosystem) == allows(contents, package2, ecosystem2),
{
    assert forall|line: Seq<char>|
        #![trigger line_allows(line, package, ecosystem)]
        line_allows(line, package, ecosystem) == line_allows(line, package2, ecosystem2) by {
        assert forall|x: Seq<char>| #![trigger eq_ignore_ascii_case(x, package)]
            eq_ignore_ascii_case(x, package) == eq_ignore_ascii_case(x, package2) by {
            if x.len() == package.len() {
                assert forall|i: int| 0 <= i < x.len() implies (ascii_fold(x[i]) == ascii_fold(
                    package[i],
                )) == (ascii_fold(x[i]) == ascii_fold(package2[i])) by {
                    assert(ascii_fold(package[i]) == ascii_fold(package2[i]));
                }
            }
        }
        assert forall|x: Seq<char>| #![trigger eq_ignore_ascii_case(x, ecosystem)]
            eq_ignore_ascii_case(x, ecosystem) == eq_ignore_ascii_case(x, ecosystem2) by {
            if x.len() == ecosystem.len() {
                assert forall|i: int| 0 <= i < x.len() implies (ascii_fold(x[i]) == ascii_fold(
                    ecosystem[i],
                )) == (ascii_fold(x[i]) == ascii_fold(ecosystem2[i])) by {
                    assert(ascii_fold(ecosystem[i]) == ascii_fold(ecosystem2[i]));
                }
            }
        }
    }
    if allows(contents, package, ecosystem) {
        let i = choose|i: int|
            0 <= i < lines(contents).len() && line_allows(
                trim(#[trigger] lines(contents)[i]),
                package,
                ecosystem,
            );
        assert(line_allows(trim(lines(contents)[i]), package2, ecosystem2));
    }
    if allows(contents, package2, ecosystem2) {
        let i = choose|i: int|
            0 <= i < lines(contents).len() && line_allows(
                trim(#[trigger] lines(contents)[i]),
                package2,
                ecosystem2,
            );
        assert(line_allows(trim(lines(contents)[i]), package, ecosystem));
    }
}

/// `line_start` leaves text that is empty or ends in a newline.
proof fn lemma_line_start(existing: Seq<char>)
    ensures
        line_start(existing).len() == 0 || line_start(existing).last() == '\n',
        (existing.len() == 0 || existing.last() == '\n') ==> line_start(existing) == existing,
{
}

/// After `allow` adds a bare package name (or finds it already listed),
/// the allow-list allows that package in every ecosystem.  The name must be
/// a plain entry: non-empty, without surrounding whitespace, not a comment,
/// and free of `:` and newlines.
pub proof fn law_added_package_is_allowed(
    existing: Seq<char>,
    package: Seq<char>,
    ecosystem: Seq<char>,
)
    requires
        package.len() > 0,
        !is_ws(package[0]),
        !is_ws(package.last()),
        package[0] != '#',
        lacks(package, '\n'),
        lacks(package, ':'),
    ensures
        allows(
            match add_result(existing, package, None) {
                Some(c) => c,
                None => existing,
            },
            package,
            ecosystem,
        ),
{
    let e = entry_line(package, None);
    assert(e == package + seq!['\n']);
    lemma_trim_clean(package);
    lemma_char_pos_absent(package, ':');
    assert(line_allows(package, package, ecosystem));
    if listed(existing, e) {
        let i = choose|i: int|
            0 <= i < lines(existing).len() && trim(#[trigger] lines(existing)[i]) == trim(e);
        assert(line_allows(trim(lines(existing)[i]), package, ecosystem));
    } else {
        let base = line_start(existing);
        lemma_line_start(existing);
        let c = base + e;
        lemma_lines_concat(base, e);
        lemma_lines_single(package);
        let i = lines(base).len() as int;
        assert(lines(c)[i] == package);
        assert(line_allows(trim(lines(c)[i]), package, ecosystem));
    }
}


/// After `allow --ecosystem` adds a scoped entry (or finds it already
/// listed), the allow-list allows the package in that ecosystem, spelled in
/// any ASCII case.  The entry must be one plain line (non-empty, no
/// surrounding whitespace, not a comment, no newline), and the lower-cased
/// ecosystem must hold no `:`.
pub proof fn law_scoped_package_is_allowed(
    existing: Seq<char>,
    package: Seq<char>,
    ecosystem: Seq<char>,
    asked: Seq<char>,
)
    requires
        removal_target(package, Some(ecosystem)).len() > 0,
        !is_ws(removal_target(package, Some(ecosystem))[0]),
        !is_ws(removal_target(package, Some(ecosystem)).last()),
        removal_target(package, Some(ecosystem))[0] != '#',
        lacks(removal_target(package, Some(ecosystem)), '\n'),
        lacks(lowercase(ecosystem), ':'),
        eq_ignore_ascii_case(lowercase(ecosystem), asked),
    ensures
        allows(
            match add_result(existing, package, Some(ecosystem)) {
                Some(c) => c,
                None => existing,
            },
            package,
            asked,
        ),
{
    let l = lowercase(ecosystem);
    let t = removal_target(package, Some(ecosystem));
    let e = entry_line(package, Some(ecosystem));
    assert(e =~= t + seq!['\n']);
    lemma_trim_clean(t);
    lemma_char_pos_absent(l, ':');
    assert(t =~= l + (seq![':'] + package));
    assert(split_once(t, ':') == Some((l, package))) by {
        assert forall|j: int| 0 <= j < l.len() implies #[trigger] t[j] != ':' by {
            assert(t[j] == l[j]);
        }
        assert(t[l.len() as int] == ':');
        lemma_char_pos(t, ':', l.len() as int);
        assert(t.take(l.len() as int) =~= l);
        assert(t.skip(l.len() + 1 as int) =~= package);
    }
    assert(line_allows(t, package, asked));
    if listed(existing, e) {
        let i = choose|i: int|
            0 <= i < lines(existing).len() && trim(#[trigger] lines(existing)[i]) == trim(e);
        assert(line_allows(trim(lines(existing)[i]), package, asked));
    } else {
        let base = line_start(existing);
        lemma_line_start(existing);
        let c = base + e;
        lemma_lines_concat(base, e);
        lemma_lines_single(t);
        let i = lines(base).len() as int;
        assert(lines(c)[i] == t);
        assert(line_allows(trim(lines(c)[i]), package, asked));
    }
}

proof fn lemma_kept_text_omits(ls: Seq<Seq<char>>, target: Seq<char>)
    requires
        forall|i: int| 0 <= i < ls.len() ==> lacks(#[trigger] ls[i], '\n'),
    ensures
        forall|i: int|
            0 <= i < lines(kept_text(ls, target)).len() ==> trim(
                #[trigger] lines(kept_text(ls, target))[i],
            ) != target,
    decreases ls.len(),
{
    if ls.len() > 0 {
        let rest = ls.drop_first();
        assert forall|i: int| 0 <= i < rest.len() implies lacks(#[trigger] rest[i], '\n') by {
            assert(rest[i] == ls[i + 1]);
        }
        lemma_kept_text_omits(rest, target);
        if trim(ls[0]) != target {
            let head = ls[0] + seq!['\n'];
            assert(kept_text(ls, target) == head + kept_text(rest, target));
            lemma_lines_concat(head, kept_text(rest, target));
            assert(lacks(ls[0], '\n'));
            lemma_lines_single_cr(ls[0]);
            lemma_trim_strip_cr(ls[0]);
            let out = lines(kept_text(ls, target));
            assert forall|i: int| 0 <= i < out.len() implies trim(#[trigger] out[i]) != target by {
                if i > 0 {
                    assert(out[i] == lines(kept_text(rest, target))[i - 1]);
                } else {
                    assert(out[0] == strip_cr(ls[0]));
                }
            }
        }
    }
}

/// After an entry is filtered out, no line of the allow-list trims to it
/// any more; every other line stays.
pub proof fn law_filter_removes_target(contents: Seq<char>, target: Seq<char>)
    ensures
        forall|i: int|
            0 <= i < lines(kept_text(lines(contents), target)).len() ==> trim(
                #[trigger] lines(kept_text(lines(contents), target))[i],
            ) != target,
{
    lemma_lines_lack_newline(contents);
    lemma_kept_text_omits(lines(contents), target);
}

/// Removing a package right after adding it (or finding it already listed)
/// finds its entry.  The entry must be one plain line: non-empty, without
/// surrounding whitespace or newlines.
pub proof fn law_remove_after_add_finds(
    existing: Seq<char>,
    package: Seq<char>,
    ecosystem: Option<Seq<char>>,
)
    requires
        removal_target(package, ecosystem).len() > 0,
        !is_ws(removal_target(package, ecosystem)[0]),
        !is_ws(removal_target(package, ecosystem).last()),
        lacks(removal_target(package, ecosystem), '\n'),
    ensures
        remove_result(
            match add_result(existing, package, ecosystem) {
                Some(c) => c,
                None => existing,
            },
            package,
            ecosystem,
        ) is Some,
{
    let t = removal_target(package, ecosystem);
    let e = entry_line(package, ecosystem);
    assert(e =~= t + seq!['\n']);
    lemma_trim_clean(t);
    let after = match add_result(existing, package, ecosystem) {
        Some(c) => c,
        None => existing,
    };
    let i: int = if listed(existing, e) {
        choose|i: int| 0 <= i < lines(existing).len() && trim(#[trigger] lines(existing)[i]) == trim(e)
    } else {
        let base = line_start(existing);
        lemma_line_start(existing);
        lemma_lines_concat(base, e);
        lemma_lines_single(t);
        assert(lines(after)[lines(base).len() as int] == t);
        lines(base).len() as int
    };
    assert(0 <= i < lines(after).len() && trim(lines(after)[i]) == t);
    assert(has_entry(after, t));
}

/// Filtering a concatenation of lines filters each part.
proof fn lemma_kept_text_concat(a: Seq<Seq<char>>, b: Seq<Seq<char>>, target: Seq<char>)
    ensures
        kept_text(a + b, target) == kept_text(a, target) + kept_text(b, target),
    decreases a.len(),
{
    if a.len() == 0 {
        assert(a + b =~= b);
        assert(kept_text(a, target) + kept_text(b, target) =~= kept_text(b, target));
    } else {
        assert((a + b).drop_first() =~= a.drop_first() + b);
        assert((a + b)[0] == a[0]);
        lemma_kept_text_concat(a.drop_first(), b, target);
        if trim(a[0]) != target {
            assert(kept_text(a + b, target) =~= kept_text(a, target) + kept_text(b, target));
        }
    }
}

/// Text that ends in a newline (or is empty), holds no carriage return and
/// no line of which trims to `target`, comes through the filter unchanged.
proof fn lemma_kept_text_identity(s: Seq<char>, target: Seq<char>)
    requires
        s.len() == 0 || s.last() == '\n',
        lacks(s, '\r'),
        !has_entry(s, target),
    ensures
        kept_text(lines(s), target) == s,
    decreases s.len(),
{
    if s.len() > 0 {
        lemma_char_pos_props(s, '\n');
        let k = char_pos(s, '\n');
        assert(k < s.len()) by {
            if k == s.len() {
                assert(s[s.len() - 1] != '\n');
            }
        }
        let head = s.take(k as int);
        let rest = s.skip(k + 1 as int);
        assert(strip_cr(head) == head) by {
            if head.len() > 0 {
                assert(head.last() == s[k - 1]);
            }
        }
        assert(lines(s) == seq![head] + lines(rest));
        assert(lines(s)[0] == head);
        assert(trim(head) != target);
        assert(lines(s).drop_first() =~= lines(rest));
        if rest.len() > 0 {
            assert(rest.last() == s.last());
        }
        assert forall|j: int| 0 <= j < rest.len() implies rest[j] != '\r' by {
            assert(rest[j] == s[k + 1 + j]);
        }
        assert(!has_entry(rest, target)) by {
            if has_entry(rest, target) {
                let j = choose|j: int|
                    0 <= j < lines(rest).len() && trim(#[trigger] lines(rest)[j]) == target;
                assert(lines(s)[j + 1] == lines(rest)[j]);
            }
        }
        lemma_kept_text_identity(rest, target);
        assert(s =~= head + seq!['\n'] + rest);
    }
}

/// Removing a package right after adding it gives back the allow-list as
/// it was.  The list must end in a newline (or be empty), hold no carriage
/// return, and not already name the entry; the entry must be one plain
/// line: non-empty, without surrounding whitespace or newlines.
pub proof fn law_remove_undoes_add(
    existing: Seq<char>,
    package: Seq<char>,
    ecosystem: Option<Seq<char>>,
)
    requires
        existing.len() == 0 || existing.last() == '\n',
        lacks(existing, '\r'),
        !has_entry(existing, removal_target(package, ecosystem)),
        removal_target(package, ecosystem).len() > 0,
        !is_ws(removal_target(package, ecosystem)[0]),
        !is_ws(removal_target(package, ecosystem).last()),
        lacks(removal_target(package, ecosystem), '\n'),
    ensures
        add_result(existing, package, ecosystem) is Some,
        remove_result(add_result(existing, package, ecosystem)->0, package, ecosystem) == Some(
            existing,
        ),
{
    let t = removal_target(package, ecosystem);
    let e = entry_line(package, ecosystem);
    assert(e =~= t + seq!['\n']);
    lemma_trim_clean(t);
    assert(!listed(existing, e));
    lemma_line_start(existing);
    let after = existing + e;
    assert(add_result(existing, package, ecosystem) == Some(after));
    lemma_lines_concat(existing, e);
    lemma_lines_single(t);
    assert(lines(after) == lines(existing) + seq![t]);
    assert(lines(after)[lines(existing).len() as int] == t);
    assert(has_entry(after, t));
    lemma_kept_text_concat(lines(existing), seq![t], t);
    assert(seq![t][0] == t);
    assert(seq![t].drop_first() =~= Seq::<Seq<char>>::empty());
    assert(kept_text(Seq::<Seq<char>>::empty(), t) == Seq::<char>::empty());
    assert(kept_text(seq![t], t) == kept_text(Seq::<Seq<char>>::empty(), t));
    lemma_kept_text_identity(existing, t);
    assert(kept_text(lines(after), t) =~= existing);
}

} // verus!
