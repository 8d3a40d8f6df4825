//! Character-sequence primitives with exact specifications: whitespace
//! trimming, line splitting, prefix and substring search, and ASCII
//! case-insensitive comparison.  Strings are handled as `Vec<char>` whose
//! view is the `Seq<char>` view of the string it was read from.

use vstd::prelude::*;

verus! {

/// Unicode `White_Space`, the property that `char::is_whitespace` tests.
pub open spec fn is_ws(c: char) -> bool {
    let u = c as u32;
    ||| 9 <= u <= 13
    ||| u == 32
    ||| u == 0x85
    ||| u == 0xa0
    ||| u == 0x1680
    ||| 0x2000 <= u <= 0x200a
    ||| u == 0x2028
    ||| u == 0x2029
    ||| u == 0x202f
    ||| u == 0x205f
    ||| u == 0x3000
}

/// Whether `c` is whitespace, as `char::is_whitespace`.
pub fn is_whitespace(c: char) -> (r: bool)
    ensures
        r == is_ws(c),
{
    let u = c as u32;
    (9 <= u && u <= 13) || u == 32 || u == 0x85 || u == 0xa0 || u == 0x1680 || (0x2000 <= u
        && u <= 0x200a) || u == 0x2028 || u == 0x2029 || u == 0x202f || u == 0x205f || u == 0x3000
}

/// The characters of `s`, in order.
pub fn chars_of(s: &str) -> (r: Vec<char>)
    ensures
        r@ == s@,
{
    let mut r: Vec<char> = Vec::new();
    for c in it: s.chars()
        invariant
            it.seq() == s@,
            r@ == it.seq().take(it.index() as int),
    {
        r.push(c);
    }
    r
}

/// `s` without its leading whitespace.
pub open spec fn trim_start(s: Seq<char>) -> Seq<char>
    decreases s.len(),
{
    if s.len() > 0 && is_ws(s[0]) {
        trim_start(s.drop_first())
    } else {
        s
    }
}

/// `s` without its trailing whitespace.
pub open spec fn trim_end(s: Seq<char>) -> Seq<char>
    decreases s.len(),
{
    if s.len() > 0 && is_ws(s.last()) {
        trim_end(s.drop_last())
    } else {
        s
    }
}

/// `s` without leading and trailing whitespace, as `str::trim`.
pub open spec fn trim(s: Seq<char>) -> Seq<char> {
    trim_end(trim_start(s))
}


/// `s` without its leading and trailing whitespace.
pub fn trim_v(s: &Vec<char>) -> (r: Vec<char>)
    ensures
        r@ == trim(s@),
{
    let t = trim_start_v(s);
    trim_end_v(&t)
}

/// `s` without its leading whitespace.
pub fn trim_start_v(s: &Vec<char>) -> (r: Vec<char>)
    ensures
        r@ == trim_start(s@),
{
    let n = s.len();
    let mut lo: usize = 0;
    assert(s@.skip(0) =~= s@);
    while lo < n && is_whitespace(s[lo])
        invariant
            lo <= n,
            n == s@.len(),
            trim_start(s@) == trim_start(s@.skip(lo as int)),
        decreases n - lo,
    {
        assert(s@.skip(lo as int).drop_first() =~= s@.skip(lo + 1));
        lo = lo + 1;
    }
    copy_range(s, lo, n)
}

/// `s` without its trailing whitespace.
pub fn trim_end_v(s: &Vec<char>) -> (r: Vec<char>)
    ensures
        r@ == trim_end(s@),
{
    let n = s.len();
    let mut hi: usize = n;
    assert(s@.take(n as int) =~= s@);
    while hi > 0 && is_whitespace(s[hi - 1])
        invariant
            hi <= n,
            n == s@.len(),
            trim_end(s@) == trim_end(s@.take(hi as int)),
        decreases hi,
    {
        assert(s@.take(hi as int).drop_last() =~= s@.take(hi - 1));
        hi = hi - 1;
    }
    copy_range(s, 0, hi)
}

/// The characters of `s` from `lo` up to `hi`.
pub fn copy_range(s: &Vec<char>, lo: usize, hi: usize) -> (r: Vec<char>)
    requires
        lo <= hi <= s@.len(),
    ensures
        r@ == s@.subrange(lo as int, hi as int),
{
    let mut r: Vec<char> = Vec::new();
    let mut i = lo;
    while i < hi
        invariant
            lo <= i <= hi,
            hi <= s@.len(),
            r@ == s@.subrange(lo as int, i as int),
        decreases hi - i,
    {
        r.push(s[i]);
        i = i + 1;
        assert(r@ =~= s@.subrange(lo as int, i as int));
    }
    r
}

/// Index of the first `c` in `s`, or the length of `s`.
pub open spec fn char_pos(s: Seq<char>, c: char) -> nat
    decreases s.len(),
{
    if s.len() == 0 || s[0] == c {
        0
    } else {
        1 + char_pos(s.drop_first(), c)
    }
}

/// Index of the first whitespace character in `s`, or the length of `s`.
pub open spec fn ws_pos(s: Seq<char>) -> nat
    decreases s.len(),
{
    if s.len() == 0 || is_ws(s[0]) {
        0
    } else {
        1 + ws_pos(s.drop_first())
    }
}

/// `k` is the first position of `c` when no earlier character is `c`.
pub proof fn lemma_char_pos(s: Seq<char>, c: char, k: int)
    requires
        0 <= k <= s.len(),
        forall|j: int| 0 <= j < k ==> #[trigger] s[j] != c,
        k == s.len() || s[k] == c,
    ensures
        char_pos(s, c) == k,
    decreases k,
{
    if k > 0 {
        assert(s[0] != c);
        let t = s.drop_first();
        assert forall|j: int| 0 <= j < k - 1 implies #[trigger] t[j] != c by {
            assert(t[j] == s[j + 1]);
        }
        lemma_char_pos(t, c, k - 1);
    }
}

/// `k` is the first whitespace position when no earlier character is one.
pub proof fn lemma_ws_pos(s: Seq<char>, k: int)
    requires
        0 <= k <= s.len(),
        forall|j: int| 0 <= j < k ==> !is_ws(#[trigger] s[j]),
        k == s.len() || is_ws(s[k]),
    ensures
        ws_pos(s) == k,
    decreases k,
{
    if k > 0 {
        assert(!is_ws(s[0]));
        let t = s.drop_first();
        assert forall|j: int| 0 <= j < k - 1 implies !is_ws(#[trigger] t[j]) by {
            assert(t[j] == s[j + 1]);
        }
        lemma_ws_pos(t, k - 1);
    }
}

/// Index of the first `c` in `s`, or the length of `s`.
pub fn char_pos_v(s: &Vec<char>, c: char) -> (r: usize)
    ensures
        r == char_pos(s@, c),
        r <= s@.len(),
{
    let n = s.len();
    let mut i: usize = 0;
    while i < n && s[i] != c
        invariant
            i <= n,
            n == s@.len(),
            forall|j: int| 0 <= j < i ==> s@[j] != c,
        decreases n - i,
    {
        i = i + 1;
    }
    proof {
        lemma_char_pos(s@, c, i as int);
    }
    i
}

/// Index of the first whitespace character in `s`, or the length of `s`.
pub fn ws_pos_v(s: &Vec<char>) -> (r: usize)
    ensures
        r == ws_pos(s@),
        r <= s@.len(),
{
    let n = s.len();
    let mut i: usize = 0;
    while i < n && !is_whitespace(s[i])
        invariant
            i <= n,
            n == s@.len(),
            forall|j: int| 0 <= j < i ==> !is_ws(s@[j]),
        decreases n - i,
    {
        i = i + 1;
    }
    proof {
        lemma_ws_pos(s@, i as int);
    }
    i
}

/// The first position of `c` is in range, has no `c` before it, and holds
/// `c` unless it is the end.
pub proof fn lemma_char_pos_props(s: Seq<char>, c: char)
    ensures
        char_pos(s, c) <= s.len(),
        forall|j: int| 0 <= j < char_pos(s, c) ==> s[j] != c,
        char_pos(s, c) < s.len() ==> s[char_pos(s, c) as int] == c,
    decreases s.len(),
{
    if s.len() > 0 && s[0] != c {
        let t = s.drop_first();
        lemma_char_pos_props(t, c);
        assert forall|j: int| 0 <= j < char_pos(s, c) implies s[j] != c by {
            if j > 0 {
                assert(s[j] == t[j - 1]);
            }
        }
        if char_pos(s, c) < s.len() {
            assert(s[char_pos(s, c) as int] == t[char_pos(t, c) as int]);
        }
    }
}

/// Appending to `a` does not move the first `c` that `a` already holds.
pub proof fn lemma_char_pos_concat(a: Seq<char>, b: Seq<char>, c: char)
    requires
        char_pos(a, c) < a.len(),
    ensures
        char_pos(a + b, c) == char_pos(a, c),
{
    lemma_char_pos_props(a, c);
    let k = char_pos(a, c);
    assert forall|j: int| 0 <= j < k implies #[trigger] (a + b)[j] != c by {
        assert((a + b)[j] == a[j]);
    }
    assert((a + b)[k as int] == a[k as int]);
    lemma_char_pos(a + b, c, k as int);
}

/// `c` does not occur in `s`.
pub open spec fn lacks(s: Seq<char>, c: char) -> bool {
    forall|j: int| 0 <= j < s.len() ==> s[j] != c
}

/// A `c`-free sequence has no `c` to find.
pub proof fn lemma_char_pos_absent(s: Seq<char>, c: char)
    requires
        lacks(s, c),
    ensures
        char_pos(s, c) == s.len(),
{
    lemma_char_pos(s, c, s.len() as int);
}

/// `s` without leading and trailing whitespace is `s` itself, and a
/// newline after it is trimmed away.
pub proof fn lemma_trim_clean(p: Seq<char>)
    requires
        p.len() > 0,
        !is_ws(p[0]),
        !is_ws(p.last()),
    ensures
        trim(p) == p,
        trim(p + seq!['\n']) == p,
{
    let q = p + seq!['\n'];
    assert(trim_start(p) == p);
    assert(trim_end(p) == p);
    assert(q[0] == p[0]);
    assert(trim_start(q) == q);
    assert(q.drop_last() =~= p);
    assert(is_ws(q.last()));
    assert(trim_end(q) == trim_end(q.drop_last()));
}

/// `t` without one trailing carriage return.
pub open spec fn strip_cr(t: Seq<char>) -> Seq<char> {
    if t.len() > 0 && t.last() == '\r' {
        t.drop_last()
    } else {
        t
    }
}

/// The lines of `s`, as `str::lines`: split at `\n`, a `\r` just before the
/// `\n` dropped, and no empty last line after a final `\n`.
pub open spec fn lines(s: Seq<char>) -> Seq<Seq<char>>
    decreases s.len(),
{
    if s.len() == 0 {
        seq![]
    } else {
        let k = char_pos(s, '\n');
        if k < s.len() {
            seq![strip_cr(s.take(k as int))] + lines(s.skip(k + 1 as int))
        } else {
            seq![s]
        }
    }
}

/// The lines of text that ends in a newline, followed by more text, are
/// its own lines followed by those of the rest.
pub proof fn lemma_lines_concat(a: Seq<char>, b: Seq<char>)
    requires
        a.len() == 0 || a.last() == '\n',
    ensures
        lines(a + b) == lines(a) + lines(b),
    decreases a.len(),
{
    if a.len() == 0 {
        assert(a + b =~= b);
        assert(lines(a) + lines(b) =~= lines(b));
    } else {
        lemma_char_pos_props(a, '\n');
        let k = char_pos(a, '\n');
        assert(k < a.len()) by {
            if k == a.len() {
                assert(a[a.len() - 1] != '\n');
            }
        }
        lemma_char_pos_concat(a, b, '\n');
        let a2 = a.skip(k + 1 as int);
        assert((a + b).take(k as int) =~= a.take(k as int));
        assert((a + b).skip(k + 1 as int) =~= a2 + b);
        if a2.len() > 0 {
            assert(a2.last() == a.last());
        }
        lemma_lines_concat(a2, b);
        assert(lines(a + b) == seq![strip_cr(a.take(k as int))] + lines(a2 + b));
        assert(lines(a) == seq![strip_cr(a.take(k as int))] + lines(a2));
        assert(lines(a + b) =~= lines(a) + lines(b));
    }
}

/// A line without newlines (and not ending in a carriage return) followed
/// by a newline is that one line.
pub proof fn lemma_lines_single(p: Seq<char>)
    requires
        lacks(p, '\n'),
        p.len() == 0 || p.last() != '\r',
    ensures
        lines(p + seq!['\n']) == seq![p],
{
    let s = p + seq!['\n'];
    assert forall|j: int| 0 <= j < p.len() implies #[trigger] s[j] != '\n' by {
        assert(s[j] == p[j]);
    }
    lemma_char_pos(s, '\n', p.len() as int);
    assert(s.take(p.len() as int) =~= p);
    assert(s.skip(p.len() + 1 as int) =~= Seq::<char>::empty());
    assert(strip_cr(p) == p);
    assert(lines(Seq::<char>::empty()) == Seq::<Seq<char>>::empty());
    assert(lines(s) == seq![strip_cr(s.take(p.len() as int))] + lines(s.skip(p.len() + 1 as int)));
    assert(lines(s) =~= seq![p]);
}

/// Every line of `s` occurs in `s`.
pub proof fn lemma_line_sub(s: Seq<char>, i: int)
    requires
        0 <= i < lines(s).len(),
    ensures
        is_sub(lines(s)[i], s),
    decreases s.len(),
{
    lemma_char_pos_props(s, '\n');
    let k = char_pos(s, '\n');
    if k < s.len() {
        let head = s.take(k as int);
        let rest = s.skip(k + 1 as int);
        if i == 0 {
            if head.len() > 0 && head.last() == '\r' {
                lemma_sub_take(head, head.len() - 1);
                assert(head.take(head.len() - 1) =~= head.drop_last());
            } else {
                lemma_sub_refl(head);
            }
            lemma_sub_take(s, k as int);
            lemma_sub_trans(lines(s)[0], head, s);
        } else {
            lemma_line_sub(rest, i - 1);
            lemma_sub_skip(s, k + 1 as int);
            lemma_sub_trans(lines(s)[i], rest, s);
        }
    } else {
        lemma_sub_refl(s);
    }
}

/// A line followed by a newline is that one line, less a carriage return
/// at its end.
pub proof fn lemma_lines_single_cr(p: Seq<char>)
    requires
        lacks(p, '\n'),
    ensures
        lines(p + seq!['\n']) == seq![strip_cr(p)],
{
    let s = p + seq!['\n'];
    assert forall|j: int| 0 <= j < p.len() implies #[trigger] s[j] != '\n' by {
        assert(s[j] == p[j]);
    }
    lemma_char_pos(s, '\n', p.len() as int);
    assert(s.take(p.len() as int) =~= p);
    assert(s.skip(p.len() + 1 as int) =~= Seq::<char>::empty());
    assert(lines(Seq::<char>::empty()) == Seq::<Seq<char>>::empty());
    assert(lines(s) == seq![strip_cr(s.take(p.len() as int))] + lines(s.skip(p.len() + 1 as int)));
    assert(lines(s) =~= seq![strip_cr(p)]);
}

/// No line of `s` holds a newline.
pub proof fn lemma_lines_lack_newline(s: Seq<char>)
    ensures
        forall|i: int| 0 <= i < lines(s).len() ==> lacks(#[trigger] lines(s)[i], '\n'),
    decreases s.len(),
{
    if s.len() > 0 {
        lemma_char_pos_props(s, '\n');
        let k = char_pos(s, '\n');
        if k < s.len() {
            let rest = s.skip(k + 1 as int);
            lemma_lines_lack_newline(rest);
            let head = s.take(k as int);
            assert(lacks(strip_cr(head), '\n')) by {
                assert forall|j: int| 0 <= j < strip_cr(head).len() implies strip_cr(head)[j]
                    != '\n' by {
                    assert(strip_cr(head)[j] == s[j]);
                }
            }
            assert forall|i: int| 0 <= i < lines(s).len() implies lacks(
                #[trigger] lines(s)[i],
                '\n',
            ) by {
                if i > 0 {
                    assert(lines(s)[i] == lines(rest)[i - 1]);
                }
            }
        }
    }
}

/// Whitespace after `s` does not change its trimmed text.
pub proof fn lemma_trim_ws_after(s: Seq<char>, w: char)
    requires
        is_ws(w),
    ensures
        trim(s + seq![w]) == trim(s),
    decreases s.len(),
{
    let t = s + seq![w];
    if s.len() == 0 {
        assert(t.drop_first() =~= Seq::<char>::empty());
        assert(trim_start(t) == trim_start(t.drop_first()));
    } else if is_ws(s[0]) {
        assert(t[0] == s[0]);
        assert(t.drop_first() =~= s.drop_first() + seq![w]);
        lemma_trim_ws_after(s.drop_first(), w);
    } else {
        assert(t[0] == s[0]);
        assert(trim_start(t) == t);
        assert(trim_start(s) == s);
        assert(t.drop_last() =~= s);
        assert(trim_end(t) == trim_end(s));
    }
}

/// A carriage return at the end of a line does not change its trimmed
/// text.
pub proof fn lemma_trim_strip_cr(x: Seq<char>)
    ensures
        trim(strip_cr(x)) == trim(x),
{
    if x.len() > 0 && x.last() == '\r' {
        assert(x =~= x.drop_last() + seq!['\r']);
        lemma_trim_ws_after(x.drop_last(), '\r');
    }
}

/// The views of a sequence of character vectors.
pub open spec fn views(v: Seq<Vec<char>>) -> Seq<Seq<char>> {
    v.map_values(|x: Vec<char>| x@)
}

/// `t` without one trailing carriage return.
pub fn strip_cr_v(t: Vec<char>) -> (r: Vec<char>)
    ensures
        r@ == strip_cr(t@),
{
    let mut t = t;
    if t.len() > 0 && t[t.len() - 1] == '\r' {
        t.pop();
    }
    t
}

/// The lines of `s`, as `str::lines`.
pub fn lines_v(s: &Vec<char>) -> (r: Vec<Vec<char>>)
    ensures
        views(r@) == lines(s@),
{
    let n = s.len();
    let mut out: Vec<Vec<char>> = Vec::new();
    let mut cur: Vec<char> = Vec::new();
    let mut start: usize = 0;
    let mut i: usize = 0;
    assert(s@.skip(0) =~= s@);
    while i < n
        invariant
            start <= i <= n,
            n == s@.len(),
            cur@ == s@.subrange(start as int, i as int),
            forall|j: int| start <= j < i ==> s@[j] != '\n',
            lines(s@) == views(out@) + lines(s@.skip(start as int)),
        decreases n - i,
    {
        if s[i] == '\n' {
            proof {
                let t = s@.skip(start as int);
                assert forall|j: int| 0 <= j < i - start implies #[trigger] t[j] != '\n' by {
                    assert(t[j] == s@[start + j]);
                }
                lemma_char_pos(t, '\n', i - start);
                assert(t.take(i - start) =~= cur@);
                assert(t.skip(i - start + 1) =~= s@.skip(i + 1));
            }
            let line = strip_cr_v(cur);
            let ghost old_out = out@;
            out.push(line);
            proof {
                assert(views(out@) =~= views(old_out).push(line@));
                assert(views(old_out) + (seq![line@] + lines(s@.skip(i + 1))) =~= views(out@)
                    + lines(s@.skip(i + 1)));
            }
            cur = Vec::new();
            start = i + 1;
            assert(cur@ =~= s@.subrange(start as int, (i + 1) as int));
        } else {
            cur.push(s[i]);
            assert(cur@ =~= s@.subrange(start as int, (i + 1) as int));
        }
        i = i + 1;
    }
    if start < n {
        proof {
            let t = s@.skip(start as int);
            assert forall|j: int| 0 <= j < n - start implies #[trigger] t[j] != '\n' by {
                assert(t[j] == s@[start + j]);
            }
            lemma_char_pos(t, '\n', n - start);
            assert(t =~= cur@);
        }
        let ghost old_out = out@;
        out.push(cur);
        assert(views(out@) =~= views(old_out).push(s@.skip(start as int)));
    } else {
        assert(s@.skip(start as int) =~= Seq::<char>::empty());
        assert(views(out@) + Seq::<Seq<char>>::empty() =~= views(out@));
    }
    out
}


/// The views of a sequence of strings.
pub open spec fn string_views(s: Seq<String>) -> Seq<Seq<char>> {
    s.map_values(|x: String| x@)
}

/// The view of an optional string slice.
pub open spec fn opt_str_view(o: Option<&str>) -> Option<Seq<char>> {
    match o {
        Some(s) => Some(s@),
        None => None,
    }
}

/// The view of an optional string.
pub open spec fn opt_view(o: Option<String>) -> Option<Seq<char>> {
    match o {
        Some(s) => Some(s@),
        None => None,
    }
}

/// The characters of `s` after its leading run of `c`, as
/// `str::trim_start_matches` with a `char`.
pub open spec fn trim_start_char(s: Seq<char>, c: char) -> Seq<char>
    decreases s.len(),
{
    if s.len() > 0 && s[0] == c {
        trim_start_char(s.drop_first(), c)
    } else {
        s
    }
}

/// The characters of `s` before its trailing run of `c`.
pub open spec fn trim_end_char(s: Seq<char>, c: char) -> Seq<char>
    decreases s.len(),
{
    if s.len() > 0 && s.last() == c {
        trim_end_char(s.drop_last(), c)
    } else {
        s
    }
}

/// `s` without leading and trailing runs of `c`, as `str::trim_matches`
/// with a `char`.
pub open spec fn trim_char(s: Seq<char>, c: char) -> Seq<char> {
    trim_end_char(trim_start_char(s, c), c)
}

/// `s` without its leading run of `c`.
pub fn trim_start_char_v(s: &Vec<char>, c: char) -> (r: Vec<char>)
    ensures
        r@ == trim_start_char(s@, c),
{
    let n = s.len();
    let mut lo: usize = 0;
    assert(s@.skip(0) =~= s@);
    while lo < n && s[lo] == c
        invariant
            lo <= n,
            n == s@.len(),
            trim_start_char(s@, c) == trim_start_char(s@.skip(lo as int), c),
        decreases n - lo,
    {
        assert(s@.skip(lo as int).drop_first() =~= s@.skip(lo + 1));
        lo = lo + 1;
    }
    copy_range(s, lo, n)
}

/// `s` without its trailing run of `c`.
pub fn trim_end_char_v(s: &Vec<char>, c: char) -> (r: Vec<char>)
    ensures
        r@ == trim_end_char(s@, c),
{
    let n = s.len();
    let mut hi: usize = n;
    assert(s@.take(n as int) =~= s@);
    while hi > 0 && s[hi - 1] == c
        invariant
            hi <= n,
            n == s@.len(),
            trim_end_char(s@, c) == trim_end_char(s@.take(hi as int), c),
        decreases hi,
    {
        assert(s@.take(hi as int).drop_last() =~= s@.take(hi - 1));
        hi = hi - 1;
    }
    copy_range(s, 0, hi)
}

/// `s` without leading and trailing runs of `c`.
pub fn trim_char_v(s: &Vec<char>, c: char) -> (r: Vec<char>)
    ensures
        r@ == trim_char(s@, c),
{
    let t = trim_start_char_v(s, c);
    trim_end_char_v(&t, c)
}

/// `p` is a prefix of `s`.
pub open spec fn starts_with(s: Seq<char>, p: Seq<char>) -> bool {
    p.len() <= s.len() && s.take(p.len() as int) == p
}

/// `p` is a suffix of `s`.
pub open spec fn ends_with(s: Seq<char>, p: Seq<char>) -> bool {
    p.len() <= s.len() && s.skip(s.len() - p.len()) == p
}

/// The first position at or after `i` where `p` occurs in `s`.
pub open spec fn find_from(s: Seq<char>, p: Seq<char>, i: nat) -> Option<nat>
    decreases s.len() + 1 - i,
{
    if i + p.len() > s.len() {
        None
    } else if s.subrange(i as int, (i + p.len()) as int) == p {
        Some(i)
    } else {
        find_from(s, p, i + 1)
    }
}

/// The first position where `p` occurs in `s`, as `str::find` counted in
/// characters.
pub open spec fn find(s: Seq<char>, p: Seq<char>) -> Option<nat> {
    find_from(s, p, 0)
}

/// `p` occurs somewhere in `s`.
pub open spec fn contains(s: Seq<char>, p: Seq<char>) -> bool {
    find(s, p) is Some
}

/// Splits `s` around the first `c`, as `str::split_once` with a `char`.
pub open spec fn split_once(s: Seq<char>, c: char) -> Option<(Seq<char>, Seq<char>)> {
    let k = char_pos(s, c);
    if k < s.len() {
        Some((s.take(k as int), s.skip(k + 1 as int)))
    } else {
        None
    }
}

/// The code of `c` with ASCII upper-case letters folded to lower case.
pub open spec fn ascii_fold(c: char) -> u32 {
    let u = c as u32;
    if 65 <= u <= 90 {
        (u + 32) as u32
    } else {
        u
    }
}

/// `a` and `b` are equal up to ASCII case, as `str::eq_ignore_ascii_case`.
pub open spec fn eq_ignore_ascii_case(a: Seq<char>, b: Seq<char>) -> bool {
    &&& a.len() == b.len()
    &&& forall|i: int| 0 <= i < a.len() ==> ascii_fold(#[trigger] a[i]) == ascii_fold(b[i])
}

/// The first whitespace-separated token of `s` and what follows it, as one
/// step of `str::split_whitespace`.
pub open spec fn next_token(s: Seq<char>) -> Option<(Seq<char>, Seq<char>)> {
    let t = trim_start(s);
    if t.len() == 0 {
        None
    } else {
        let k = ws_pos(t);
        Some((t.take(k as int), t.skip(k as int)))
    }
}

/// `x` occurs in `y` at some position.
pub open spec fn is_sub(x: Seq<char>, y: Seq<char>) -> bool {
    exists|a: int| 0 <= a && a + x.len() <= y.len() && #[trigger] y.subrange(a, a + x.len()) == x
}

/// Every sequence occurs in itself.
pub proof fn lemma_sub_refl(x: Seq<char>)
    ensures
        is_sub(x, x),
{
    let a: int = 0;
    assert(x.subrange(a, a + x.len()) =~= x);
}

/// What occurs in a part of `z` occurs in `z`.
pub proof fn lemma_sub_trans(x: Seq<char>, y: Seq<char>, z: Seq<char>)
    requires
        is_sub(x, y),
        is_sub(y, z),
    ensures
        is_sub(x, z),
{
    let a = choose|a: int| 0 <= a && a + x.len() <= y.len() && #[trigger] y.subrange(a, a + x.len()) == x;
    let b = choose|b: int| 0 <= b && b + y.len() <= z.len() && #[trigger] z.subrange(b, b + y.len()) == y;
    assert(z.subrange(a + b, a + b + x.len()) =~= x) by {
        assert forall|k: int| 0 <= k < x.len() implies z.subrange(a + b, a + b + x.len())[k] == x[k] by {
            assert(x[k] == y.subrange(a, a + x.len())[k]);
            assert(y[a + k] == z.subrange(b, b + y.len())[a + k]);
        }
    }
}

/// A prefix occurs in its sequence.
pub proof fn lemma_sub_take(s: Seq<char>, n: int)
    requires
        0 <= n <= s.len(),
    ensures
        is_sub(s.take(n), s),
{
    let a: int = 0;
    assert(s.subrange(a, a + s.take(n).len()) =~= s.take(n));
}

/// A suffix occurs in its sequence.
pub proof fn lemma_sub_skip(s: Seq<char>, n: int)
    requires
        0 <= n <= s.len(),
    ensures
        is_sub(s.skip(n), s),
{
    assert(s.subrange(n, n + s.skip(n).len()) =~= s.skip(n));
}

/// Trimmed text occurs in the text it was trimmed from.
pub proof fn lemma_trim_start_sub(s: Seq<char>)
    ensures
        is_sub(trim_start(s), s),
    decreases s.len(),
{
    if s.len() > 0 && is_ws(s[0]) {
        lemma_trim_start_sub(s.drop_first());
        lemma_sub_skip(s, 1);
        assert(s.skip(1) =~= s.drop_first());
        lemma_sub_trans(trim_start(s), s.drop_first(), s);
    } else {
        lemma_sub_refl(s);
    }
}

/// Trimmed text occurs in the text it was trimmed from.
pub proof fn lemma_trim_end_sub(s: Seq<char>)
    ensures
        is_sub(trim_end(s), s),
    decreases s.len(),
{
    if s.len() > 0 && is_ws(s.last()) {
        lemma_trim_end_sub(s.drop_last());
        lemma_sub_take(s, s.len() - 1);
        assert(s.take(s.len() - 1) =~= s.drop_last());
        lemma_sub_trans(trim_end(s), s.drop_last(), s);
    } else {
        lemma_sub_refl(s);
    }
}

/// Trimmed text occurs in the text it was trimmed from.
pub proof fn lemma_trim_sub(s: Seq<char>)
    ensures
        is_sub(trim(s), s),
{
    lemma_trim_start_sub(s);
    lemma_trim_end_sub(trim_start(s));
    lemma_sub_trans(trim(s), trim_start(s), s);
}

/// A search that starts at or before an occurrence finds one.
pub proof fn lemma_find_from_some(s: Seq<char>, p: Seq<char>, j: nat, i: nat)
    requires
        j <= i,
        i + p.len() <= s.len(),
        s.subrange(i as int, (i + p.len()) as int) == p,
    ensures
        find_from(s, p, j) is Some,
    decreases i - j,
{
    if j < i && s.subrange(j as int, (j + p.len()) as int) != p {
        lemma_find_from_some(s, p, j + 1, i);
    }
}

/// A search from before `n` that meets no possible start of `p` first
/// gives what a search from `n` gives.
pub proof fn lemma_find_from_skip(s: Seq<char>, p: Seq<char>, i: nat, n: nat)
    requires
        p.len() > 0,
        i <= n <= s.len(),
        forall|j: int| 0 <= j < n ==> #[trigger] s[j] != p[0],
    ensures
        find_from(s, p, i) == find_from(s, p, n),
    decreases n - i,
{
    if i < n {
        if i + p.len() <= s.len() {
            assert(s.subrange(i as int, (i + p.len()) as int)[0] == s[i as int]);
            lemma_find_from_skip(s, p, i + 1, n);
        }
    }
}

/// What a search from `i` finds lies at or after `i`.
pub proof fn lemma_find_from_ge(s: Seq<char>, p: Seq<char>, i: nat)
    ensures
        find_from(s, p, i) is Some ==> find_from(s, p, i)->0 >= i,
    decreases s.len() + 1 - i,
{
    if i + p.len() <= s.len() && s.subrange(i as int, (i + p.len()) as int) != p {
        lemma_find_from_ge(s, p, i + 1);
    }
}

/// When no character before `n` can start `p`, `p` is found at `n` if it
/// occurs there, and otherwise only after `n` or not at all.
pub proof fn lemma_find_after(s: Seq<char>, p: Seq<char>, n: nat)
    requires
        p.len() > 0,
        n <= s.len(),
        forall|j: int| 0 <= j < n ==> #[trigger] s[j] != p[0],
    ensures
        (n + p.len() <= s.len() && s.subrange(n as int, (n + p.len()) as int) == p) ==> find(s, p)
            == Some(n),
        !(n + p.len() <= s.len() && s.subrange(n as int, (n + p.len()) as int) == p) ==> (find(s, p)
            is None || find(s, p)->0 > n),
{
    lemma_find_from_skip(s, p, 0, n);
    if !(n + p.len() <= s.len() && s.subrange(n as int, (n + p.len()) as int) == p) {
        lemma_find_from_ge(s, p, n + 1);
    }
}

/// A text without whitespace is its own first token, and nothing follows.
pub proof fn lemma_single_token(t: Seq<char>)
    requires
        t.len() > 0,
        forall|j: int| 0 <= j < t.len() ==> !is_ws(#[trigger] t[j]),
    ensures
        next_token(t) == Some((t, Seq::<char>::empty())),
{
    assert(trim_start(t) == t);
    lemma_ws_pos(t, t.len() as int);
    assert(t.take(t.len() as int) =~= t);
    assert(t.skip(t.len() as int) =~= Seq::<char>::empty());
}

/// A sequence that occurs in `y` is found in `y`.
pub proof fn lemma_sub_contains(x: Seq<char>, y: Seq<char>)
    requires
        is_sub(x, y),
    ensures
        contains(y, x),
{
    let a = choose|a: int| 0 <= a && a + x.len() <= y.len() && #[trigger] y.subrange(a, a + x.len()) == x;
    lemma_find_from_some(y, x, 0, a as nat);
}

/// Whether `p` is a prefix of `s`.
pub fn starts_with_v(s: &Vec<char>, p: &Vec<char>) -> (r: bool)
    ensures
        r == starts_with(s@, p@),
{
    if p.len() > s.len() {
        return false;
    }
    let r = matches_at_v(s, p, 0);
    assert(s@.subrange(0, p@.len() as int) =~= s@.take(p@.len() as int));
    r
}

/// Whether `p` is a prefix of `s`.
pub fn starts_with_str(s: &Vec<char>, p: &str) -> (r: bool)
    ensures
        r == starts_with(s@, p@),
{
    let pv = chars_of(p);
    starts_with_v(s, &pv)
}

/// Whether `p` is a suffix of `s`.
pub fn ends_with_str(s: &Vec<char>, p: &str) -> (r: bool)
    ensures
        r == ends_with(s@, p@),
{
    let pv = chars_of(p);
    if pv.len() > s.len() {
        return false;
    }
    let r = matches_at_v(s, &pv, s.len() - pv.len());
    assert(s@.subrange(s@.len() - pv@.len(), s@.len() as int) =~= s@.skip(
        s@.len() - pv@.len(),
    ));
    r
}

/// Whether `p` occurs in `s` at position `i`.
pub fn matches_at_v(s: &Vec<char>, p: &Vec<char>, i: usize) -> (r: bool)
    requires
        i + p@.len() <= s@.len(),
    ensures
        r == (s@.subrange(i as int, i + p@.len()) == p@),
{
    let m = p.len();
    let n = s.len();
    let mut j: usize = 0;
    while j < m
        invariant
            j <= m,
            m == p@.len(),
            n == s@.len(),
            i + m <= n,
            forall|k: int| 0 <= k < j ==> s@[i + k] == p@[k],
        decreases m - j,
    {
        if s[i + j] != p[j] {
            assert(s@.subrange(i as int, i + m)[j as int] != p@[j as int]);
            return false;
        }
        j = j + 1;
    }
    assert(s@.subrange(i as int, i + m) =~= p@);
    true
}

/// Whether `a` and `b` hold the same characters.
pub fn eq_v(a: &Vec<char>, b: &Vec<char>) -> (r: bool)
    ensures
        r == (a@ == b@),
{
    if a.len() != b.len() {
        return false;
    }
    let r = matches_at_v(a, b, 0);
    assert(a@.subrange(0, b@.len() as int) =~= a@);
    r
}

/// Whether `a` holds exactly the characters of `b`.
pub fn eq_str(a: &Vec<char>, b: &str) -> (r: bool)
    ensures
        r == (a@ == b@),
{
    let bv = chars_of(b);
    eq_v(a, &bv)
}

/// The first position where `p` occurs in `s`.
pub fn find_v(s: &Vec<char>, p: &Vec<char>) -> (r: Option<usize>)
    ensures
        match r {
            Some(k) => find(s@, p@) == Some(k as nat) && k + p@.len() <= s@.len(),
            None => find(s@, p@) is None,
        },
{
    let n = s.len();
    let m = p.len();
    if m == 0 {
        assert(s@.subrange(0, 0) =~= p@);
        return Some(0);
    }
    if m > n {
        return None;
    }
    let mut i: usize = 0;
    while i <= n - m
        invariant
            n == s@.len(),
            m == p@.len(),
            1 <= m <= n,
            find(s@, p@) == find_from(s@, p@, i as nat),
        decreases n + 1 - i,
    {
        if matches_at_v(s, p, i) {
            return Some(i);
        }
        i = i + 1;
    }
    None
}

/// The first position where `p` occurs in `s`.
pub fn find_str(s: &Vec<char>, p: &str) -> (r: Option<usize>)
    ensures
        match r {
            Some(k) => find(s@, p@) == Some(k as nat) && k + p@.len() <= s@.len(),
            None => find(s@, p@) is None,
        },
{
    let pv = chars_of(p);
    find_v(s, &pv)
}

/// Whether `p` occurs in `s`.
pub fn contains_str(s: &Vec<char>, p: &str) -> (r: bool)
    ensures
        r == contains(s@, p@),
{
    find_str(s, p).is_some()
}

/// Splits `s` around the first `c`.
pub fn split_once_v(s: &Vec<char>, c: char) -> (r: Option<(Vec<char>, Vec<char>)>)
    ensures
        match r {
            Some((a, b)) => split_once(s@, c) == Some((a@, b@)),
            None => split_once(s@, c) is None,
        },
{
    let k = char_pos_v(s, c);
    if k < s.len() {
        let a = copy_range(s, 0, k);
        let b = copy_range(s, k + 1, s.len());
        assert(a@ =~= s@.take(k as int));
        assert(b@ =~= s@.skip(k + 1 as int));
        Some((a, b))
    } else {
        None
    }
}

/// The code of `c` with ASCII upper case folded to lower case.
pub fn ascii_fold_v(c: char) -> (r: u32)
    ensures
        r == ascii_fold(c),
{
    let u = c as u32;
    if 65 <= u && u <= 90 {
        u + 32
    } else {
        u
    }
}

/// Whether `a` and `b` are equal up to ASCII case.
pub fn eq_ignore_ascii_case_v(a: &Vec<char>, b: &Vec<char>) -> (r: bool)
    ensures
        r == eq_ignore_ascii_case(a@, b@),
{
    if a.len() != b.len() {
        return false;
    }
    let n = a.len();
    let mut i: usize = 0;
    while i < n
        invariant
            i <= n,
            n == a@.len(),
            n == b@.len(),
            forall|j: int| 0 <= j < i ==> ascii_fold(#[trigger] a@[j]) == ascii_fold(b@[j]),
        decreases n - i,
    {
        if ascii_fold_v(a[i]) != ascii_fold_v(b[i]) {
            return false;
        }
        i = i + 1;
    }
    true
}

/// The first whitespace-separated token of `s` and what follows it.
pub fn next_token_v(s: &Vec<char>) -> (r: Option<(Vec<char>, Vec<char>)>)
    ensures
        match r {
            Some((a, b)) => next_token(s@) == Some((a@, b@)),
            None => next_token(s@) is None,
        },
{
    let t = trim_start_v(s);
    if t.len() == 0 {
        return None;
    }
    let k = ws_pos_v(&t);
    let a = copy_range(&t, 0, k);
    let b = copy_range(&t, k, t.len());
    assert(a@ =~= t@.take(k as int));
    assert(b@ =~= t@.skip(k as int));
    Some((a, b))
}

/// `String::push`: appends `c` to `s`.
#[verifier::external_body]
fn push_char(s: &mut String, c: char)
    ensures
        final(s)@ == old(s)@.push(c),
{
    s.push(c);
}

/// Appends the characters `b` to `a`.
pub fn extend_v(a: &mut Vec<char>, b: &Vec<char>)
    ensures
        final(a)@ == old(a)@ + b@,
{
    let ghost a0 = a@;
    let m = b.len();
    let mut j: usize = 0;
    while j < m
        invariant
            j <= m,
            m == b@.len(),
            a@ == a0 + b@.take(j as int),
        decreases m - j,
    {
        a.push(b[j]);
        j = j + 1;
        assert(a@ =~= a0 + b@.take(j as int));
    }
    assert(b@.take(m as int) =~= b@);
}

/// The string whose characters are `v`.
pub fn to_string_v(v: &Vec<char>) -> (r: String)
    ensures
        r@ == v@,
{
    let mut r = String::new();
    let n = v.len();
    let mut i: usize = 0;
    while i < n
        invariant
            i <= n,
            n == v@.len(),
            r@ == v@.take(i as int),
        decreases n - i,
    {
        push_char(&mut r, v[i]);
        i = i + 1;
        assert(r@ =~= v@.take(i as int));
    }
    assert(v@.take(n as int) =~= v@);
    r
}

/// What `str::to_lowercase` returns for the characters `s`: the
/// lower-case mapping of the Unicode `Lowercase` property.
pub uninterp spec fn lowercase(s: Seq<char>) -> Seq<char>;

/// What `str::to_uppercase` returns for the characters `s`: the
/// upper-case mapping of the Unicode `Uppercase` property.
pub uninterp spec fn uppercase(s: Seq<char>) -> Seq<char>;

/// `str::to_lowercase`; its result is named `lowercase`.
#[verifier::external_body]
fn str_to_lowercase(s: &str) -> (r: String)
    ensures
        r@ == lowercase(s@),
{
    s.to_lowercase()
}

/// `str::to_uppercase`; its result is named `uppercase`.
#[verifier::external_body]
fn str_to_uppercase(s: &str) -> (r: String)
    ensures
        r@ == uppercase(s@),
{
    s.to_uppercase()
}

/// The lower-case form of `s`, as `str::to_lowercase`.
pub fn lowercase_v(s: &Vec<char>) -> (r: Vec<char>)
    ensures
        r@ == lowercase(s@),
{
    let st = to_string_v(s);
    let low = str_to_lowercase(st.as_str());
    chars_of(low.as_str())
}

/// The upper-case form of `s`, as `str::to_uppercase`.
pub fn uppercase_v(s: &Vec<char>) -> (r: Vec<char>)
    ensures
        r@ == uppercase(s@),
{
    let st = to_string_v(s);
    let up = str_to_uppercase(st.as_str());
    chars_of(up.as_str())
}

} // verus!
