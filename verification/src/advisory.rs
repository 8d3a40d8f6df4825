//! GitHub Advisory Database lookups: the request URL and the selection of
//! the advisories that affect a package.  The HTTP request and the JSON
//! decoding happen outside this library.

use vstd::prelude::*;
use crate::text::{
    chars_of, eq_ignore_ascii_case, eq_ignore_ascii_case_v, extend_v, to_string_v, uppercase,
    uppercase_v,
};

verus! {

/// A package that an advisory names as affected.
#[derive(Debug, Clone)]
pub struct GhPackage {
    pub name: String,
    pub ecosystem: String,
}

/// An advisory as the GitHub API returns it.
#[derive(Debug, Clone)]
pub struct GhAdvisory {
    pub ghsa_id: String,
    pub summary: String,
    pub severity: String,
    pub vulnerabilities: Vec<GhPackage>,
}

/// A normalised advisory from GitHub.
#[derive(Debug, Clone)]
pub struct Advisory {
    pub id: String,
    pub summary: String,
    pub severity: String,
}

/// The mathematical value of an `Advisory`.
pub struct AdvisoryView {
    pub id: Seq<char>,
    pub summary: Seq<char>,
    pub severity: Seq<char>,
}

impl View for Advisory {
    type V = AdvisoryView;

    open spec fn view(&self) -> AdvisoryView {
        AdvisoryView { id: self.id@, summary: self.summary@, severity: self.severity@ }
    }
}

/// The views of a sequence of advisories.
pub open spec fn advisory_views(s: Seq<Advisory>) -> Seq<AdvisoryView> {
    s.map_values(|a: Advisory| a@)
}

/// `a` names `package` of `ecosystem` as affected, up to ASCII case.
pub open spec fn affects(a: GhAdvisory, package: Seq<char>, ecosystem: Seq<char>) -> bool {
    exists|j: int|
        0 <= j < a.vulnerabilities@.len() && eq_ignore_ascii_case(
            (#[trigger] a.vulnerabilities@[j]).name@,
            package,
        ) && eq_ignore_ascii_case(a.vulnerabilities@[j].ecosystem@, ecosystem)
}

/// The normalised form of `a`: its id, summary, and upper-cased severity.
pub open spec fn normalise(a: GhAdvisory) -> AdvisoryView {
    AdvisoryView { id: a.ghsa_id@, summary: a.summary@, severity: uppercase(a.severity@) }
}

/// The normalised advisories of `raw` that affect `package` of
/// `ecosystem`, in order.
pub open spec fn selected(raw: Seq<GhAdvisory>, package: Seq<char>, ecosystem: Seq<char>) -> Seq<
    AdvisoryView,
>
    decreases raw.len(),
{
    if raw.len() == 0 {
        seq![]
    } else if affects(raw[0], package, ecosystem) {
        seq![normalise(raw[0])] + selected(raw.drop_first(), package, ecosystem)
    } else {
        selected(raw.drop_first(), package, ecosystem)
    }
}

fn affects_v(a: &GhAdvisory, package: &Vec<char>, ecosystem: &Vec<char>) -> (r: bool)
    ensures
        r == affects(*a, package@, ecosystem@),
{
    let n = a.vulnerabilities.len();
    let mut j: usize = 0;
    while j < n
        invariant
            j <= n,
            n == a.vulnerabilities@.len(),
            forall|k: int|
                0 <= k < j ==> !(eq_ignore_ascii_case(
                    (#[trigger] a.vulnerabilities@[k]).name@,
                    package@,
                ) && eq_ignore_ascii_case(a.vulnerabilities@[k].ecosystem@, ecosystem@)),
        decreases n - j,
    {
        let v = &a.vulnerabilities[j];
        let name = chars_of(v.name.as_str());
        let eco = chars_of(v.ecosystem.as_str());
        if eq_ignore_ascii_case_v(&name, package) && eq_ignore_ascii_case_v(&eco, ecosystem) {
            return true;
        }
        j = j + 1;
    }
    false
}

/// The advisories of `raw` that affect `package` of `ecosystem`, with
/// their severities upper-cased.
pub fn select_advisories(raw: &[GhAdvisory], package: &str, ecosystem: &str) -> (r: Vec<Advisory>)
    ensures
        advisory_views(r@) == selected(raw@, package@, ecosystem@),
{
    let p = chars_of(package);
    let e = chars_of(ecosystem);
    let mut out: Vec<Advisory> = Vec::new();
    let n = raw.len();
    let mut i: usize = 0;
    assert(raw@.skip(0) =~= raw@);
    while i < n
        invariant
            i <= n,
            n == raw@.len(),
            p@ == package@,
            e@ == ecosystem@,
            selected(raw@, package@, ecosystem@) == advisory_views(out@) + selected(
                raw@.skip(i as int),
                package@,
                ecosystem@,
            ),
        decreases n - i,
    {
        let ghost rest = raw@.skip(i as int);
        assert(rest[0] == raw@[i as int]);
        assert(rest.drop_first() =~= raw@.skip(i + 1));
        let a = &raw[i];
        if affects_v(a, &p, &e) {
            let sev = uppercase_v(&chars_of(a.severity.as_str()));
            let adv = Advisory {
                id: a.ghsa_id.clone(),
                summary: a.summary.clone(),
                severity: to_string_v(&sev),
            };
            let ghost old_out = out@;
            out.push(adv);
            assert(advisory_views(out@) =~= advisory_views(old_out).push(adv@));
            assert(advisory_views(old_out) + (seq![adv@] + selected(
                raw@.skip(i + 1),
                package@,
                ecosystem@,
            )) =~= advisory_views(out@) + selected(raw@.skip(i + 1), package@, ecosystem@));
        }
        i = i + 1;
    }
    assert(raw@.skip(n as int) =~= Seq::<GhAdvisory>::empty());
    assert(advisory_views(out@) + Seq::<AdvisoryView>::empty() =~= advisory_views(out@));
    out
}

/// `x` is the normalised form of one of `raw` that names `package` of
/// `ecosystem`.
pub open spec fn drawn_from(
    raw: Seq<GhAdvisory>,
    package: Seq<char>,
    ecosystem: Seq<char>,
    x: AdvisoryView,
) -> bool {
    exists|j: int|
        0 <= j < raw.len() && affects(raw[j], package, ecosystem) && x == normalise(
            #[trigger] raw[j],
        )
}

/// Every advisory that the selection keeps is one of the fetched
/// advisories that names the package in its ecosystem (up to ASCII case),
/// normalised.
pub proof fn law_selected_affect_package(
    raw: Seq<GhAdvisory>,
    package: Seq<char>,
    ecosystem: Seq<char>,
)
    ensures
        forall|i: int|
            0 <= i < selected(raw, package, ecosystem).len() ==> drawn_from(
                raw,
                package,
                ecosystem,
                #[trigger] selected(raw, package, ecosystem)[i],
            ),
    decreases raw.len(),
{
    if raw.len() > 0 {
        let rest = raw.drop_first();
        law_selected_affect_package(rest, package, ecosystem);
        let out = selected(raw, package, ecosystem);
        assert forall|i: int| 0 <= i < out.len() implies drawn_from(
            raw,
            package,
            ecosystem,
            #[trigger] out[i],
        ) by {
            let k: int = if affects(raw[0], package, ecosystem) {
                i - 1
            } else {
                i
            };
            if k < 0 {
                assert(out[i] == normalise(raw[0]));
            } else {
                assert(out[i] == selected(rest, package, ecosystem)[k]);
                assert(drawn_from(rest, package, ecosystem, selected(rest, package, ecosystem)[k]));
                let j = choose|j: int|
                    0 <= j < rest.len() && affects(rest[j], package, ecosystem) && selected(
                        rest,
                        package,
                        ecosystem,
                    )[k] == normalise(#[trigger] rest[j]);
                assert(rest[j] == raw[j + 1]);
                assert(out[i] == normalise(raw[j + 1]));
            }
        }
    }
}

// ---------------------------------------------------------------------------
// URL encoding
// ---------------------------------------------------------------------------

/// What `char::is_alphanumeric` returns for `c`: whether `c` has the
/// Unicode `Alphabetic` or `Numeric` property.
pub uninterp spec fn alphanumeric(c: char) -> bool;

/// `char::is_alphanumeric`; its result is named `alphanumeric`.
#[verifier::external_body]
fn char_is_alphanumeric(c: char) -> (r: bool)
    ensures
        r == alphanumeric(c),
{
    c.is_alphanumeric()
}

/// A character that goes into a URL query unescaped.
pub open spec fn url_safe(c: char) -> bool {
    alphanumeric(c) || c == '-' || c == '_' || c == '.'
}

/// The upper-case hexadecimal digit for `d` (below 16).
pub open spec fn hex_digit(d: nat) -> char {
    if d < 10 {
        (48 + d) as char
    } else {
        (55 + d) as char
    }
}

/// The upper-case hexadecimal digits of `n`, without leading zeros.
pub open spec fn hex(n: nat) -> Seq<char>
    decreases n,
{
    if n < 16 {
        seq![hex_digit(n)]
    } else {
        hex(n / 16) + seq![hex_digit(n % 16)]
    }
}

/// `n` in upper-case hexadecimal, at least two digits (`{:02X}`).
pub open spec fn hex2(n: nat) -> Seq<char> {
    if n < 16 {
        seq!['0', hex_digit(n)]
    } else {
        hex(n)
    }
}

/// `c` as it stands in a URL query: itself when safe, else `%` and its
/// code point in hexadecimal.
pub open spec fn encode_char(c: char) -> Seq<char> {
    if url_safe(c) {
        seq![c]
    } else {
        seq!['%'] + hex2(c as nat)
    }
}

/// `s` escaped for a URL query.
pub open spec fn urlencode(s: Seq<char>) -> Seq<char>
    decreases s.len(),
{
    if s.len() == 0 {
        seq![]
    } else {
        urlencode(s.drop_last()) + encode_char(s.last())
    }
}

fn hex_digit_v(d: u32) -> (r: char)
    requires
        d < 16,
    ensures
        r == hex_digit(d as nat),
{
    match d {
        0 => '0',
        1 => '1',
        2 => '2',
        3 => '3',
        4 => '4',
        5 => '5',
        6 => '6',
        7 => '7',
        8 => '8',
        9 => '9',
        10 => 'A',
        11 => 'B',
        12 => 'C',
        13 => 'D',
        14 => 'E',
        _ => 'F',
    }
}

fn hex_v(n: u32) -> (r: Vec<char>)
    ensures
        r@ == hex(n as nat),
    decreases n,
{
    if n < 16 {
        let mut v = Vec::new();
        v.push(hex_digit_v(n));
        assert(v@ =~= seq![hex_digit(n as nat)]);
        v
    } else {
        let mut v = hex_v(n / 16);
        v.push(hex_digit_v(n % 16));
        v
    }
}

fn encode_char_v(c: char) -> (r: Vec<char>)
    ensures
        r@ == encode_char(c),
{
    let mut v = Vec::new();
    if char_is_alphanumeric(c) || c == '-' || c == '_' || c == '.' {
        v.push(c);
        assert(v@ =~= seq![c]);
    } else {
        let n = c as u32;
        v.push('%');
        if n < 16 {
            v.push('0');
            v.push(hex_digit_v(n));
            assert(v@ =~= seq!['%'] + seq!['0', hex_digit(n as nat)]);
        } else {
            let h = hex_v(n);
            extend_v(&mut v, &h);
            assert(v@ =~= seq!['%'] + hex(n as nat));
        }
    }
    v
}

/// `s` escaped for a URL query: characters other than alphanumerics and
/// `-`, `_`, `.` become `%` and their code point in hexadecimal.
pub fn urlencoding(s: &str) -> (r: String)
    ensures
        r@ == urlencode(s@),
{
    let cs = chars_of(s);
    let mut out: Vec<char> = Vec::new();
    let n = cs.len();
    let mut i: usize = 0;
    assert(cs@.take(0) =~= Seq::<char>::empty());
    while i < n
        invariant
            i <= n,
            n == cs@.len(),
            out@ == urlencode(cs@.take(i as int)),
        decreases n - i,
    {
        let e = encode_char_v(cs[i]);
        extend_v(&mut out, &e);
        assert(cs@.take(i + 1).drop_last() =~= cs@.take(i as int));
        i = i + 1;
    }
    assert(cs@.take(n as int) =~= cs@);
    to_string_v(&out)
}

/// The advisory search URL for `package` of `ecosystem`.
pub fn advisory_url(package: &str, ecosystem: &str) -> (r: String)
    ensures
        r@ == "https://api.github.com/advisories?affects="@ + urlencode(package@) + "&ecosystem="@
            + urlencode(ecosystem@),
{
    let mut s = String::from_str("https://api.github.com/advisories?affects=");
    let p = urlencoding(package);
    s.append(p.as_str());
    s.append("&ecosystem=");
    let e = urlencoding(ecosystem);
    s.append(e.as_str());
    s
}

/// The selection keeps every fetched advisory that names the package in
/// its ecosystem (up to ASCII case), normalised, and nothing more than
/// the fetched advisories.
pub proof fn law_selection_is_complete(raw: Seq<GhAdvisory>, package: Seq<char>, ecosystem: Seq<char>)
    ensures
        selected(raw, package, ecosystem).len() <= raw.len(),
        forall|j: int|
            0 <= j < raw.len() && #[trigger] affects(raw[j], package, ecosystem) ==> exists|i: int|
                0 <= i < selected(raw, package, ecosystem).len() && selected(raw, package, ecosystem)[i]
                    == normalise(raw[j]),
    decreases raw.len(),
{
    if raw.len() > 0 {
        let rest = raw.drop_first();
        law_selection_is_complete(rest, package, ecosystem);
        let out = selected(raw, package, ecosystem);
        let tail = selected(rest, package, ecosystem);
        let off: int = if affects(raw[0], package, ecosystem) {
            1
        } else {
            0
        };
        assert forall|i: int| off <= i < out.len() implies out[i] == tail[i - off] by {}
        assert forall|j: int|
            0 <= j < raw.len() && #[trigger] affects(raw[j], package, ecosystem) implies exists|i: int|
            0 <= i < out.len() && out[i] == normalise(raw[j]) by {
            if j == 0 {
                assert(out[0] == normalise(raw[0]));
            } else {
                assert(rest[j - 1] == raw[j]);
                assert(affects(rest[j - 1], package, ecosystem));
                let i = choose|i: int| 0 <= i < tail.len() && tail[i] == normalise(rest[j - 1]);
                assert(out[i + off] == tail[i]);
            }
        }
    }
}

/// The upper-case hexadecimal digits, in order.
pub open spec fn hex_digits() -> Seq<char> {
    "0123456789ABCDEF"@
}

proof fn lemma_hex_digit(d: nat)
    requires
        d < 16,
    ensures
        hex_digit(d) == hex_digits()[d as int],
{
    reveal_strlit("0123456789ABCDEF");
    if d == 0 {
        assert(hex_digits()[0] == '0');
    } else if d == 1 {
        assert(hex_digits()[1] == '1');
    } else if d == 2 {
        assert(hex_digits()[2] == '2');
    } else if d == 3 {
        assert(hex_digits()[3] == '3');
    } else if d == 4 {
        assert(hex_digits()[4] == '4');
    } else if d == 5 {
        assert(hex_digits()[5] == '5');
    } else if d == 6 {
        assert(hex_digits()[6] == '6');
    } else if d == 7 {
        assert(hex_digits()[7] == '7');
    } else if d == 8 {
        assert(hex_digits()[8] == '8');
    } else if d == 9 {
        assert(hex_digits()[9] == '9');
    } else if d == 10 {
        assert(hex_digits()[10] == 'A');
    } else if d == 11 {
        assert(hex_digits()[11] == 'B');
    } else if d == 12 {
        assert(hex_digits()[12] == 'C');
    } else if d == 13 {
        assert(hex_digits()[13] == 'D');
    } else if d == 14 {
        assert(hex_digits()[14] == 'E');
    } else if d == 15 {
        assert(hex_digits()[15] == 'F');
    }
}

/// Escaping works character by character: the escape of a concatenation
/// is the concatenation of the escapes.
proof fn lemma_urlencode_concat(a: Seq<char>, b: Seq<char>)
    ensures
        urlencode(a + b) == urlencode(a) + urlencode(b),
    decreases b.len(),
{
    if b.len() == 0 {
        assert(a + b =~= a);
        assert(urlencode(a) + urlencode(b) =~= urlencode(a));
    } else {
        assert((a + b).drop_last() =~= a + b.drop_last());
        assert((a + b).last() == b.last());
        lemma_urlencode_concat(a, b.drop_last());
        assert(urlencode(a + b) =~= urlencode(a) + urlencode(b));
    }
}

/// URL escaping goes character by character: the escape of `a + b` is the
/// escape of `a` followed by that of `b`; a letter, digit, `-`, `_` or `.`
/// stands for itself; any other character below U+0100 becomes `%` and
/// its two upper-case hexadecimal digits (a space is `%20`, `/` is `%2F`).
pub proof fn law_urlencode_escapes(a: Seq<char>, b: Seq<char>, c: char)
    ensures
        urlencode(a + b) == urlencode(a) + urlencode(b),
        url_safe(c) ==> urlencode(seq![c]) == seq![c],
        (!url_safe(c) && (c as nat) < 256) ==> urlencode(seq![c]) == seq![
            '%',
            hex_digits()[((c as nat) / 16) as int],
            hex_digits()[((c as nat) % 16) as int],
        ],
{
    lemma_urlencode_concat(a, b);
    let e = Seq::<char>::empty();
    assert(seq![c].drop_last() =~= e);
    assert(seq![c].last() == c);
    assert(urlencode(e) == e);
    assert(urlencode(seq![c]) == urlencode(e) + encode_char(c));
    assert(urlencode(seq![c]) =~= encode_char(c));
    let n = c as nat;
    if !url_safe(c) && n < 256 {
        lemma_hex_digit(n / 16);
        lemma_hex_digit(n % 16);
        if n >= 16 {
            assert(n / 16 < 16);
            assert(hex(n / 16) == seq![hex_digit(n / 16)]);
            assert(hex(n) == hex(n / 16) + seq![hex_digit(n % 16)]);
        } else {
            assert(n / 16 == 0);
            assert(n % 16 == n);
            reveal_strlit("0123456789ABCDEF");
        }
        assert(encode_char(c) =~= seq!['%'] + hex2(n));
    }
}

} // verus!
