//! `primer uninit`: removing the PATH block from shell configuration files.

use vstd::prelude::*;
use crate::init::{
    append_result, lemma_addition_parts, lemma_marker_in_addition, marker, path_addition, path_line,
};
use crate::text::{
    chars_of, contains, contains_str, copy_range, eq_str, extend_v, lemma_line_sub, lemma_lines_concat,
    lemma_lines_single, lemma_sub_contains, lemma_sub_trans, lemma_trim_clean, lemma_trim_sub,
    lines, lines_v, opt_view, to_string_v, trim, trim_v, views,
};

verus! {

/// The lines of `ls` that stay when the marked block is dropped: from each
/// marker line through the next blank line; `skipping` says whether a
/// block is open.
pub open spec fn kept_lines(ls: Seq<Seq<char>>, skipping: bool) -> Seq<Seq<char>>
    decreases ls.len(),
{
    if ls.len() == 0 {
        seq![]
    } else {
        let t = trim(ls[0]);
        if t == marker() {
            kept_lines(ls.drop_first(), true)
        } else if skipping && t.len() == 0 {
            kept_lines(ls.drop_first(), false)
        } else if !skipping {
            seq![ls[0]] + kept_lines(ls.drop_first(), false)
        } else {
            kept_lines(ls.drop_first(), true)
        }
    }
}

/// The lines `ls` joined by newlines, as `join("\n")`.
pub open spec fn join_lines(ls: Seq<Seq<char>>) -> Seq<char>
    decreases ls.len(),
{
    if ls.len() == 0 {
        seq![]
    } else if ls.len() == 1 {
        ls[0]
    } else {
        join_lines(ls.drop_last()) + seq!['\n'] + ls.last()
    }
}

/// The shell configuration `contents` without the marked block, or `None`
/// when it holds no marker.
pub open spec fn strip_result(contents: Seq<char>) -> Option<Seq<char>> {
    if !contains(contents, marker()) {
        None
    } else {
        Some(join_lines(kept_lines(lines(contents), false)) + seq!['\n'])
    }
}

fn kept_lines_v(ls: &Vec<Vec<char>>) -> (r: Vec<Vec<char>>)
    ensures
        views(r@) == kept_lines(views(ls@), false),
{
    let ghost lv = views(ls@);
    let mut out: Vec<Vec<char>> = Vec::new();
    let mut skipping = false;
    let n = ls.len();
    let mut i: usize = 0;
    assert(lv.skip(0) =~= lv);
    while i < n
        invariant
            i <= n,
            n == ls@.len(),
            lv == views(ls@),
            kept_lines(lv, false) == views(out@) + kept_lines(lv.skip(i as int), skipping),
        decreases n - i,
    {
        let ghost rest = lv.skip(i as int);
        assert(rest[0] == ls@[i as int]@);
        assert(rest.drop_first() =~= lv.skip(i + 1));
        let t = trim_v(&ls[i]);
        if eq_str(&t, "# motionstream") {
            skipping = true;
        } else if skipping && t.len() == 0 {
            skipping = false;
        } else if !skipping {
            let ghost old_out = out@;
            let line = copy_range(&ls[i], 0, ls[i].len());
            assert(line@ =~= ls@[i as int]@);
            out.push(line);
            assert(views(out@) =~= views(old_out).push(line@));
            assert(views(old_out) + (seq![line@] + kept_lines(lv.skip(i + 1), false)) =~= views(
                out@,
            ) + kept_lines(lv.skip(i + 1), false));
        }
        i = i + 1;
    }
    assert(lv.skip(n as int) =~= Seq::<Seq<char>>::empty());
    assert(views(out@) + Seq::<Seq<char>>::empty() =~= views(out@));
    out
}

fn join_lines_v(ls: &Vec<Vec<char>>) -> (r: Vec<char>)
    ensures
        r@ == join_lines(views(ls@)),
{
    let ghost lv = views(ls@);
    let mut out: Vec<char> = Vec::new();
    let n = ls.len();
    let mut i: usize = 0;
    assert(lv.take(0) =~= Seq::<Seq<char>>::empty());
    while i < n
        invariant
            i <= n,
            n == ls@.len(),
            lv == views(ls@),
            out@ == join_lines(lv.take(i as int)),
        decreases n - i,
    {
        let ghost prev = out@;
        assert(lv.take(i + 1).drop_last() =~= lv.take(i as int));
        assert(lv.take(i + 1).last() == ls@[i as int]@);
        if i > 0 {
            out.push('\n');
        }
        extend_v(&mut out, &ls[i]);
        proof {
            if i == 0 {
                assert(out@ =~= ls@[0]@);
            } else {
                assert(out@ =~= prev + seq!['\n'] + ls@[i as int]@);
            }
        }
        i = i + 1;
    }
    assert(lv.take(n as int) =~= lv);
    out
}

/// Removes the marked block (the marker line through the next blank line)
/// from the shell configuration `contents`: the new contents, or `None`
/// when there is no marker.
pub fn strip_marker_block(contents: &str) -> (r: Option<String>)
    ensures
        opt_view(r) == strip_result(contents@),
{
    let c = chars_of(contents);
    if !contains_str(&c, "# motionstream") {
        return None;
    }
    let ls = lines_v(&c);
    let kept = kept_lines_v(&ls);
    let mut out = join_lines_v(&kept);
    out.push('\n');
    Some(to_string_v(&out))
}


/// Lines that are not the marker all stay, and leave no block open.
pub proof fn lemma_kept_prefix(a: Seq<Seq<char>>, b: Seq<Seq<char>>)
    requires
        forall|i: int| 0 <= i < a.len() ==> trim(#[trigger] a[i]) != marker(),
    ensures
        kept_lines(a + b, false) == a + kept_lines(b, false),
    decreases a.len(),
{
    if a.len() == 0 {
        assert(a + b =~= b);
        assert(a + kept_lines(b, false) =~= kept_lines(b, false));
    } else {
        let t = a.drop_first();
        assert((a + b).drop_first() =~= t + b);
        assert((a + b)[0] == a[0]);
        assert(trim(a[0]) != marker());
        assert forall|i: int| 0 <= i < t.len() implies trim(#[trigger] t[i]) != marker() by {
            assert(t[i] == a[i + 1]);
        }
        lemma_kept_prefix(t, b);
        assert(a + kept_lines(b, false) =~= seq![a[0]] + (t + kept_lines(b, false)));
    }
}

/// Text without the marker has no line that trims to the marker.
pub proof fn lemma_no_marker_lines(c: Seq<char>)
    requires
        !contains(c, marker()),
    ensures
        forall|i: int| 0 <= i < lines(c).len() ==> trim(#[trigger] lines(c)[i]) != marker(),
{
    assert forall|i: int| 0 <= i < lines(c).len() implies trim(#[trigger] lines(c)[i]) != marker() by {
        if trim(lines(c)[i]) == marker() {
            lemma_trim_sub(lines(c)[i]);
            lemma_line_sub(c, i);
            lemma_sub_trans(marker(), lines(c)[i], c);
            lemma_sub_contains(marker(), c);
        }
    }
}

/// The appended text is, line by line: a blank line, the marker, the PATH
/// line.
pub proof fn lemma_addition_lines(fish: bool)
    ensures
        lines(path_addition(fish)) == seq![Seq::<char>::empty(), marker(), path_line(fish)],
{
    let m = marker();
    let pl = path_line(fish);
    let e = Seq::<char>::empty();
    lemma_addition_parts(fish);
    assert(path_addition(fish) =~= seq!['\n'] + ((m + seq!['\n']) + (pl + seq!['\n'])));
    lemma_lines_concat(seq!['\n'], (m + seq!['\n']) + (pl + seq!['\n']));
    lemma_lines_concat(m + seq!['\n'], pl + seq!['\n']);
    assert(e + seq!['\n'] =~= seq!['\n']);
    lemma_lines_single(e);
    lemma_lines_single(m);
    lemma_lines_single(pl);
    assert(lines(seq!['\n']) == seq![e]);
    assert(lines((m + seq!['\n']) + (pl + seq!['\n'])) == seq![m] + seq![pl]);
    assert(lines(path_addition(fish)) =~= seq![e, m, pl]);
}

/// Of the appended lines only the blank line stays.
pub proof fn lemma_addition_kept(fish: bool)
    ensures
        kept_lines(seq![Seq::<char>::empty(), marker(), path_line(fish)], false) == seq![
            Seq::<char>::empty(),
        ],
{
    let m = marker();
    let pl = path_line(fish);
    let e = Seq::<char>::empty();
    lemma_addition_parts(fish);
    lemma_trim_clean(m);
    lemma_trim_clean(pl);
    assert(trim(e) =~= e);
    assert(seq![e, m, pl].drop_first() =~= seq![m, pl]);
    assert(seq![m, pl].drop_first() =~= seq![pl]);
    assert(seq![pl].drop_first() =~= Seq::<Seq<char>>::empty());
    assert(pl != m);
    assert(kept_lines(Seq::<Seq<char>>::empty(), true) == Seq::<Seq<char>>::empty());
    assert(seq![pl][0] == pl);
    assert(trim(pl) == pl);
    assert(kept_lines(seq![pl], true) == kept_lines(seq![pl].drop_first(), true));
    assert(kept_lines(seq![pl], true) =~= Seq::<Seq<char>>::empty());
    assert(kept_lines(seq![m, pl], false) =~= Seq::<Seq<char>>::empty());
    assert(kept_lines(seq![e, m, pl], false) =~= seq![e]);
}

/// Stripping the block that `init` appended to a shell configuration
/// gives back the configuration's own lines, followed by the blank line
/// that separated the block (for a configuration that is empty or ends in
/// a newline).
pub proof fn law_strip_undoes_append(c: Seq<char>, fish: bool)
    requires
        append_result(c, fish) is Some,
        c.len() == 0 || c.last() == '\n',
    ensures
        strip_result(append_result(c, fish)->0) == Some(
            join_lines(lines(c) + seq![Seq::<char>::empty()]) + seq!['\n'],
        ),
{
    let add = path_addition(fish);
    let tail = seq![Seq::<char>::empty(), marker(), path_line(fish)];
    lemma_marker_in_addition(c, fish);
    lemma_sub_contains(marker(), c + add);
    lemma_lines_concat(c, add);
    lemma_addition_lines(fish);
    assert(lines(c + add) == lines(c) + tail);
    lemma_no_marker_lines(c);
    lemma_kept_prefix(lines(c), tail);
    lemma_addition_kept(fish);
}

} // verus!
