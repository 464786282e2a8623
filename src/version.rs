use vstd::prelude::*;

use crate::text::{
    all_digits, chars_of, decimal_text, digits_value, ends_with, ends_with_chars, field, field_in,
    is_digit, lacks,
    lemma_decimal_text, lemma_field_split, lemma_field_whole, parse_u32, parse_u32_spec,
    push_decimal, push_str, starts_with, starts_with_at, string_of, unsigned_value,
};

verus! {

/// A kernel version, as read from the name of one of its installed files:
/// `major.minor.patch`, an optional release candidate number, and whether the
/// install is a superseded `.old` one.
///
/// The fields are laid out in the order in which versions compare, so that the
/// derived `Ord` agrees with `partial_cmp`: `current` is false for a `.old`
/// install, which comes before the current install of the same version.
#[derive(Clone, Copy, Debug, PartialEq, Eq, Structural, Ord, Hash)]
pub struct KernelVersion {
    pub major: u32,
    pub minor: u32,
    pub patch: u32,
    pub release_candidate_num: Option<u32>,
    pub current: bool,
}

/// A name that could not be read as a kernel version.
#[derive(Debug)]
pub struct VersionParseError {
    pub path: String,
}

/// A release candidate sorts before the release, and release candidates
/// sort by number.
pub open spec fn rc_less(a: Option<u32>, b: Option<u32>) -> bool {
    match (a, b) {
        (None, Some(_)) => true,
        (Some(x), Some(y)) => x < y,
        _ => false,
    }
}

/// The order of versions: by major, minor and patch number, then release
/// candidate (none first), then `.old` before current.
pub open spec fn version_less(a: KernelVersion, b: KernelVersion) -> bool {
    ||| a.major < b.major
    ||| a.major == b.major && a.minor < b.minor
    ||| a.major == b.major && a.minor == b.minor && a.patch < b.patch
    ||| a.major == b.major && a.minor == b.minor && a.patch == b.patch && rc_less(
        a.release_candidate_num,
        b.release_candidate_num,
    )
    ||| a.major == b.major && a.minor == b.minor && a.patch == b.patch
        && a.release_candidate_num == b.release_candidate_num && !a.current && b.current
}

pub open spec fn version_cmp(a: KernelVersion, b: KernelVersion) -> core::cmp::Ordering {
    if version_less(a, b) {
        core::cmp::Ordering::Less
    } else if a == b {
        core::cmp::Ordering::Equal
    } else {
        core::cmp::Ordering::Greater
    }
}

/// The two name the same release, whether or not either is a `.old` install.
pub open spec fn same_release(a: KernelVersion, b: KernelVersion) -> bool {
    &&& a.major == b.major
    &&& a.minor == b.minor
    &&& a.patch == b.patch
    &&& a.release_candidate_num == b.release_candidate_num
}

/// The same version without the `.old` mark: where a `.old` install finds its
/// sources and modules.
pub open spec fn counterpart(v: KernelVersion) -> KernelVersion {
    KernelVersion { current: true, ..v }
}

/// Versions are strictly and totally ordered: none comes before itself, two
/// never come before each other, the order is transitive, and of two different
/// versions one comes first.
pub proof fn lemma_version_order(a: KernelVersion, b: KernelVersion, c: KernelVersion)
    ensures
        !version_less(a, a),
        version_less(a, b) ==> !version_less(b, a),
        version_less(a, b) && version_less(b, c) ==> version_less(a, c),
        a != b ==> version_less(a, b) || version_less(b, a),
{
}

/// The `k`-th dot-separated number of `t`.
pub open spec fn number_field(t: Seq<char>, k: nat) -> Option<u32> {
    match field(t, '.', k) {
        Some(x) => parse_u32_spec(x),
        None => None,
    }
}

/// The release candidate piece: a number, after an optional `rc` prefix;
/// anything else is none.
pub open spec fn rc_field(r: Seq<char>) -> Option<u32> {
    if starts_with(r, seq!['r', 'c']) {
        parse_u32_spec(r.skip(2))
    } else {
        parse_u32_spec(r)
    }
}

pub open spec fn old_suffix() -> Seq<char> {
    seq!['.', 'o', 'l', 'd']
}

/// Which dash-separated piece holds `major.minor.patch`: the first where the
/// name starts with a digit (a module directory), else the second.
pub open spec fn lead_field(s: Seq<char>) -> nat {
    if is_digit(s[0]) {
        0
    } else {
        1
    }
}

/// The version that a name gives, if it gives one.
pub open spec fn parse_spec(s: Seq<char>) -> Option<KernelVersion> {
    if s.len() == 0 {
        None
    } else {
        let lead = lead_field(s);
        match (field(s, '-', lead), field(s, '-', lead + 1)) {
            (Some(t), Some(r)) => match (
                number_field(t, 0),
                number_field(t, 1),
                number_field(t, 2),
            ) {
                (Some(major), Some(minor), Some(patch)) => Some(
                    KernelVersion {
                        major,
                        minor,
                        patch,
                        release_candidate_num: rc_field(r),
                        current: !ends_with(s, old_suffix()),
                    },
                ),
                _ => None,
            },
            _ => None,
        }
    }
}

/// The canonical text of a version: `major.minor.patch[-rcN][.old]`.
pub open spec fn render_spec(v: KernelVersion) -> Seq<char> {
    let base = decimal_text(v.major as nat) + seq!['.'] + decimal_text(v.minor as nat) + seq!['.']
        + decimal_text(v.patch as nat);
    let with_rc = match v.release_candidate_num {
        Some(n) => base + seq!['-', 'r', 'c'] + decimal_text(n as nat),
        None => base,
    };
    if v.current {
        with_rc
    } else {
        with_rc + old_suffix()
    }
}

/// `major.minor.patch` as text.
pub open spec fn triple_text(v: KernelVersion) -> Seq<char> {
    decimal_text(v.major as nat) + seq!['.'] + decimal_text(v.minor as nat) + seq!['.']
        + decimal_text(v.patch as nat)
}

/// `major.minor.patch`, then `-rcN` where there is a release candidate: the
/// canonical text without the `.old` mark.
pub open spec fn release_text(v: KernelVersion) -> Seq<char> {
    match v.release_candidate_num {
        Some(n) => triple_text(v) + seq!['-', 'r', 'c'] + decimal_text(n as nat),
        None => triple_text(v),
    }
}

pub open spec fn old_text(v: KernelVersion) -> Seq<char> {
    if v.current {
        Seq::empty()
    } else {
        old_suffix()
    }
}

/// A file name that carries the canonical text of `v`: `k-<release>-k`, with
/// `.old` at the end for a `.old` install.
pub open spec fn file_name_for(v: KernelVersion) -> Seq<char> {
    seq!['k', '-'] + release_text(v) + seq!['-', 'k'] + old_text(v)
}

proof fn lemma_lacks_concat(a: Seq<char>, b: Seq<char>, c: char)
    requires
        lacks(a, c),
        lacks(b, c),
    ensures
        lacks(a + b, c),
{
    assert forall|i: int| 0 <= i < (a + b).len() implies (a + b)[i] != c by {
        if i < a.len() {
            assert((a + b)[i] == a[i]);
        } else {
            assert((a + b)[i] == b[i - a.len()]);
        }
    }
}

/// The piece after the release numbers where there is no release candidate:
/// `k` and the `.old` mark, which is no number.
proof fn lemma_tail_reads_as_none(old: Seq<char>)
    requires
        lacks(old, '-'),
    ensures
        lacks(seq!['k'] + old, '-'),
        rc_field(seq!['k'] + old) == None::<u32>,
{
    let tail = seq!['k'] + old;
    assert(lacks(seq!['k'], '-'));
    lemma_lacks_concat(seq!['k'], old, '-');
    if tail.len() >= 2 {
        assert(tail.take(2)[0] == 'k');
        assert(seq!['r', 'c'][0] == 'r');
    }
    assert(tail[0] == 'k');
    assert(!is_digit(tail[0]));
}

proof fn lemma_old_mark_reads_back(v: KernelVersion)
    ensures
        file_name_for(v).len() > 0,
        file_name_for(v)[0] == 'k',
        ends_with(file_name_for(v), old_suffix()) == !v.current,
{
    let name = file_name_for(v);
    assert(name[0] == 'k');
    if v.current {
        assert(name =~= seq!['k', '-'] + release_text(v) + seq!['-', 'k']);
        assert(name.len() >= 4);
        let n4 = name.len() - 4;
        assert(name.skip(n4)[3] == 'k');
        assert(old_suffix()[3] == 'd');
    } else {
        assert(name.skip(name.len() - 4) =~= old_suffix());
    }
}

/// The parts that the file name of `v` is written with.
pub open spec fn rc_text(v: KernelVersion) -> Option<Seq<char>> {
    match v.release_candidate_num {
        Some(n) => Some(decimal_text(n as nat)),
        None => None,
    }
}

pub open spec fn name_tail(v: KernelVersion) -> Seq<char> {
    seq!['k'] + old_text(v)
}

proof fn lemma_file_name_shape(v: KernelVersion)
    ensures
        file_name_for(v) == written_name(
            seq!['k'],
            decimal_text(v.major as nat),
            decimal_text(v.minor as nat),
            decimal_text(v.patch as nat),
            rc_text(v),
            name_tail(v),
        ),
{
    assert(file_name_for(v) =~= written_name(
        seq!['k'],
        decimal_text(v.major as nat),
        decimal_text(v.minor as nat),
        decimal_text(v.patch as nat),
        rc_text(v),
        name_tail(v),
    ));
}

proof fn lemma_file_name_parts(v: KernelVersion)
    ensures
        parts_ok(
            decimal_text(v.major as nat),
            decimal_text(v.minor as nat),
            decimal_text(v.patch as nat),
            rc_text(v),
            name_tail(v),
        ),
        version_of_parts(
            decimal_text(v.major as nat),
            decimal_text(v.minor as nat),
            decimal_text(v.patch as nat),
            rc_text(v),
            file_name_for(v),
        ) == v,
{
    lemma_decimal_text(v.major as nat);
    lemma_decimal_text(v.minor as nat);
    lemma_decimal_text(v.patch as nat);
    match v.release_candidate_num {
        Some(n) => lemma_decimal_text(n as nat),
        None => {},
    }
    let old = old_text(v);
    assert(lacks(old_suffix(), '-'));
    assert(lacks(old, '-'));
    lemma_tail_reads_as_none(old);
    lemma_old_mark_reads_back(v);
}

proof fn lemma_file_name_reads_back(v: KernelVersion)
    ensures
        parse_spec(file_name_for(v)) == Some(v),
        render_spec(v) == release_text(v) + old_text(v),
{
    let a = decimal_text(v.major as nat);
    let b = decimal_text(v.minor as nat);
    let c = decimal_text(v.patch as nat);
    let n = seq!['k'];
    lemma_file_name_parts(v);
    lemma_file_name_shape(v);
    assert(lacks(n, '-'));
    assert(!is_digit(n[0]));
    lemma_parse_of_parts(n, a, b, c, rc_text(v), name_tail(v));
    lemma_render_split(v);
}

proof fn lemma_render_split(v: KernelVersion)
    ensures
        render_spec(v) == release_text(v) + old_text(v),
{
    assert(render_spec(v) =~= release_text(v) + old_text(v));
}

/// Rendering is a canonical form: whatever name reads as a version, the
/// canonical text of that version (`major.minor.patch[-rcN][.old]`), written
/// into a file name, reads back as the same version, so rendering it again
/// gives the same text.
pub proof fn lemma_render_canonical(s: Seq<char>)
    requires
        parse_spec(s) is Some,
    ensures
        render_spec(parse_spec(s)->Some_0) == release_text(parse_spec(s)->Some_0) + old_text(
            parse_spec(s)->Some_0,
        ),
        parse_spec(file_name_for(parse_spec(s)->Some_0)) == parse_spec(s),
        render_spec(parse_spec(file_name_for(parse_spec(s)->Some_0))->Some_0) == render_spec(
            parse_spec(s)->Some_0,
        ),
{
    lemma_file_name_reads_back(parse_spec(s)->Some_0);
}

/// A non-empty run of decimal digits whose value fits in a `u32`, leading
/// zeros allowed.
pub open spec fn u32_digits(d: Seq<char>) -> bool {
    d.len() > 0 && all_digits(d) && digits_value(d) <= u32::MAX
}

proof fn lemma_digits_read(d: Seq<char>)
    requires
        u32_digits(d),
    ensures
        parse_u32_spec(d) == Some(digits_value(d) as u32),
        lacks(d, '-'),
        lacks(d, '.'),
{
    assert(is_digit(d[0]));
    assert(unsigned_value(d) == Some(digits_value(d)));
    assert forall|i: int| 0 <= i < d.len() implies d[i] != '-' && d[i] != '.' by {
        assert(is_digit(d[i]));
    }
}

/// `a.b.c` as written in a name.
pub open spec fn written_triple(a: Seq<char>, b: Seq<char>, c: Seq<char>) -> Seq<char> {
    a + seq!['.'] + b + seq!['.'] + c
}

/// `-rcN` as written in a name, or nothing.
pub open spec fn written_rc(rc: Option<Seq<char>>) -> Seq<char> {
    match rc {
        Some(r) => seq!['-', 'r', 'c'] + r,
        None => Seq::empty(),
    }
}

/// The part of a name from the release numbers on: `a.b.c[-rcN]-x`.
pub open spec fn written_release(
    a: Seq<char>,
    b: Seq<char>,
    c: Seq<char>,
    rc: Option<Seq<char>>,
    x: Seq<char>,
) -> Seq<char> {
    written_triple(a, b, c) + written_rc(rc) + seq!['-'] + x
}

/// What a name built of these parts must read as.
pub open spec fn version_of_parts(
    a: Seq<char>,
    b: Seq<char>,
    c: Seq<char>,
    rc: Option<Seq<char>>,
    s: Seq<char>,
) -> KernelVersion {
    KernelVersion {
        major: digits_value(a) as u32,
        minor: digits_value(b) as u32,
        patch: digits_value(c) as u32,
        release_candidate_num: match rc {
            Some(r) => Some(digits_value(r) as u32),
            None => None,
        },
        current: !ends_with(s, old_suffix()),
    }
}

/// The parts that a well-formed name is made of.
pub open spec fn parts_ok(
    a: Seq<char>,
    b: Seq<char>,
    c: Seq<char>,
    rc: Option<Seq<char>>,
    x: Seq<char>,
) -> bool {
    &&& u32_digits(a)
    &&& u32_digits(b)
    &&& u32_digits(c)
    &&& (rc matches Some(r) ==> u32_digits(r))
    &&& lacks(x, '-')
    &&& (rc is None ==> rc_field(x) is None)
}

proof fn lemma_release_pieces(
    a: Seq<char>,
    b: Seq<char>,
    c: Seq<char>,
    rc: Option<Seq<char>>,
    x: Seq<char>,
)
    requires
        parts_ok(a, b, c, rc, x),
    ensures
        field(written_release(a, b, c, rc, x), '-', 0) == Some(written_triple(a, b, c)),
        field(written_release(a, b, c, rc, x), '-', 1) matches Some(p) && rc_field(p) == (
        match rc {
            Some(r) => Some(digits_value(r) as u32),
            None => None::<u32>,
        }),
        number_field(written_triple(a, b, c), 0) == Some(digits_value(a) as u32),
        number_field(written_triple(a, b, c), 1) == Some(digits_value(b) as u32),
        number_field(written_triple(a, b, c), 2) == Some(digits_value(c) as u32),
{
    lemma_digits_read(a);
    lemma_digits_read(b);
    lemma_digits_read(c);
    let t = written_triple(a, b, c);
    assert(lacks(seq!['.'], '-'));
    lemma_lacks_concat(a, seq!['.'], '-');
    lemma_lacks_concat(a + seq!['.'], b, '-');
    lemma_lacks_concat(a + seq!['.'] + b, seq!['.'], '-');
    lemma_lacks_concat(a + seq!['.'] + b + seq!['.'], c, '-');
    let rest = b + seq!['.'] + c;
    assert(t =~= a + seq!['.'] + rest);
    lemma_field_split(a, '.', rest, 0);
    lemma_field_split(a, '.', rest, 1);
    lemma_field_split(b, '.', c, 0);
    lemma_field_whole(c, '.');
    let w = written_release(a, b, c, rc, x);
    match rc {
        Some(r) => {
            lemma_digits_read(r);
            let p = seq!['r', 'c'] + r;
            assert(lacks(seq!['r', 'c'], '-'));
            lemma_lacks_concat(seq!['r', 'c'], r, '-');
            assert(w =~= t + seq!['-'] + (p + seq!['-'] + x));
            lemma_field_split(t, '-', p + seq!['-'] + x, 0);
            lemma_field_split(p, '-', x, 0);
            assert(p.take(2) =~= seq!['r', 'c']);
            assert(p.skip(2) =~= r);
        },
        None => {
            assert(w =~= t + seq!['-'] + x);
            lemma_field_split(t, '-', x, 0);
            lemma_field_whole(x, '-');
        },
    }
}

/// A name made of these parts: `n-a.b.c[-rcN]-x`, or `a.b.c[-rcN]-x` where `n`
/// is empty (a module directory).
pub open spec fn written_name(
    n: Seq<char>,
    a: Seq<char>,
    b: Seq<char>,
    c: Seq<char>,
    rc: Option<Seq<char>>,
    x: Seq<char>,
) -> Seq<char> {
    if n.len() == 0 {
        written_release(a, b, c, rc, x)
    } else {
        n + seq!['-'] + written_release(a, b, c, rc, x)
    }
}

/// The canonical text of the version such a name gives: the decimal values of
/// `a`, `b`, `c`, then `-rc` and the value of `N` where there is one, then
/// `.old` where the name `s` ends with it.
pub open spec fn canonical_of_parts(
    a: Seq<char>,
    b: Seq<char>,
    c: Seq<char>,
    rc: Option<Seq<char>>,
    s: Seq<char>,
) -> Seq<char> {
    decimal_text(digits_value(a)) + seq!['.'] + decimal_text(digits_value(b)) + seq!['.']
        + decimal_text(digits_value(c)) + match rc {
        Some(r) => seq!['-', 'r', 'c'] + decimal_text(digits_value(r)),
        None => Seq::empty(),
    } + if ends_with(s, old_suffix()) {
        old_suffix()
    } else {
        Seq::empty()
    }
}

proof fn lemma_parse_of_parts(
    n: Seq<char>,
    a: Seq<char>,
    b: Seq<char>,
    c: Seq<char>,
    rc: Option<Seq<char>>,
    x: Seq<char>,
)
    requires
        parts_ok(a, b, c, rc, x),
        n.len() == 0 || (!is_digit(n[0]) && lacks(n, '-')),
    ensures
        parse_spec(written_name(n, a, b, c, rc, x)) == Some(
            version_of_parts(a, b, c, rc, written_name(n, a, b, c, rc, x)),
        ),
{
    lemma_release_pieces(a, b, c, rc, x);
    let w = written_release(a, b, c, rc, x);
    let s = written_name(n, a, b, c, rc, x);
    if n.len() == 0 {
        assert(s[0] == a[0]);
        assert(is_digit(a[0]));
    } else {
        assert(s[0] == n[0]);
        lemma_field_split(n, '-', w, 0);
        lemma_field_split(n, '-', w, 1);
    }
}

proof fn lemma_render_of_parts(a: Seq<char>, b: Seq<char>, c: Seq<char>, rc: Option<Seq<char>>, s: Seq<char>)
    requires
        u32_digits(a),
        u32_digits(b),
        u32_digits(c),
        rc matches Some(r) ==> u32_digits(r),
    ensures
        render_spec(version_of_parts(a, b, c, rc, s)) == canonical_of_parts(a, b, c, rc, s),
{
    assert(render_spec(version_of_parts(a, b, c, rc, s)) =~= canonical_of_parts(a, b, c, rc, s));
}

/// What `render(parse(s))` gives, stated over the text of `s`: a name
/// `n-a.b.c[-rcN]-x` (`n` not starting with a digit) or a module directory
/// name `a.b.c[-rcN]-x` reads as the values of `a`, `b`, `c` and `N`, and
/// renders as their canonical decimal text, then `-rcN` where there is a
/// release candidate, then `.old` where the name ends with it.
pub proof fn lemma_render_of_parse(
    n: Seq<char>,
    a: Seq<char>,
    b: Seq<char>,
    c: Seq<char>,
    rc: Option<Seq<char>>,
    x: Seq<char>,
)
    requires
        parts_ok(a, b, c, rc, x),
        n.len() == 0 || (!is_digit(n[0]) && lacks(n, '-')),
    ensures
        parse_spec(written_name(n, a, b, c, rc, x)) == Some(
            version_of_parts(a, b, c, rc, written_name(n, a, b, c, rc, x)),
        ),
        render_spec(version_of_parts(a, b, c, rc, written_name(n, a, b, c, rc, x)))
            == canonical_of_parts(a, b, c, rc, written_name(n, a, b, c, rc, x)),
{
    lemma_parse_of_parts(n, a, b, c, rc, x);
    lemma_render_of_parts(a, b, c, rc, written_name(n, a, b, c, rc, x));
}

fn number_in(cs: &[char], lo: usize, hi: usize, k: usize) -> (r: Option<u32>)
    requires
        lo <= hi <= cs@.len(),
    ensures
        r == number_field(cs@.subrange(lo as int, hi as int), k as nat),
{
    match field_in(cs, lo, hi, '.', k) {
        Some((a, b)) => parse_u32(cs, a, b),
        None => None,
    }
}

/// The release candidate that `cs[lo..hi]` gives (see `rc_field`).
fn rc_in(cs: &[char], lo: usize, hi: usize) -> (r: Option<u32>)
    requires
        lo <= hi <= cs@.len(),
    ensures
        r == rc_field(cs@.subrange(lo as int, hi as int)),
{
    let ghost rs = cs@.subrange(lo as int, hi as int);
    proof {
        reveal_strlit("rc");
    }
    assert("rc"@ =~= seq!['r', 'c']);
    if starts_with_at(cs, lo, hi, "rc") {
        assert(rs.skip(2) =~= cs@.subrange(lo + 2, hi as int));
        parse_u32(cs, lo + 2, hi)
    } else {
        parse_u32(cs, lo, hi)
    }
}

fn parse_chars(cs: &[char]) -> (r: Option<KernelVersion>)
    ensures
        r == parse_spec(cs@),
{
    let n = cs.len();
    if n == 0 {
        return None;
    }
    assert(cs@.subrange(0, n as int) =~= cs@);
    let c0 = cs[0];
    let lead: usize = if '0' <= c0 && c0 <= '9' {
        0
    } else {
        1
    };
    let t = field_in(cs, 0, n, '-', lead);
    let r = field_in(cs, 0, n, '-', lead + 1);
    match (t, r) {
        (Some((tlo, thi)), Some((rlo, rhi))) => {
            let major = number_in(cs, tlo, thi, 0);
            let minor = number_in(cs, tlo, thi, 1);
            let patch = number_in(cs, tlo, thi, 2);
            match (major, minor, patch) {
                (Some(major), Some(minor), Some(patch)) => {
                    proof {
                        reveal_strlit(".old");
                    }
                    let rc = rc_in(cs, rlo, rhi);
                    let old = ends_with_chars(cs, ".old");
                    assert(".old"@ =~= old_suffix());
                    Some(
                        KernelVersion {
                            major,
                            minor,
                            patch,
                            release_candidate_num: rc,
                            current: !old,
                        },
                    )
                },
                _ => None,
            }
        },
        _ => None,
    }
}

impl KernelVersion {
    pub fn new(major: u32, minor: u32, patch: u32, release_candidate_num: Option<u32>, is_old: bool)
        -> (r: KernelVersion)
        ensures
            r.major == major,
            r.minor == minor,
            r.patch == patch,
            r.release_candidate_num == release_candidate_num,
            r.current == !is_old,
    {
        KernelVersion { major, minor, patch, release_candidate_num, current: !is_old }
    }

    /// Reads a version from a file or directory name (see `parse_spec`).
    pub fn parse(raw: &str) -> (r: Result<KernelVersion, VersionParseError>)
        ensures
            match r {
                Ok(v) => parse_spec(raw@) == Some(v),
                Err(e) => parse_spec(raw@) is None && e.path@ == raw@,
            },
    {
        let cs = chars_of(raw);
        match parse_chars(cs.as_slice()) {
            Some(v) => Ok(v),
            None => Err(VersionParseError { path: string_of(cs.as_slice()) }),
        }
    }

    pub fn is_old(&self) -> (r: bool)
        ensures
            r == !self.current,
    {
        !self.current
    }

    /// Returns the major, minor and patch numbers.
    pub fn version_triple(&self) -> (r: (u32, u32, u32))
        ensures
            r == (self.major, self.minor, self.patch),
    {
        (self.major, self.minor, self.patch)
    }

    pub fn release_candidate_num(&self) -> (r: Option<u32>)
        ensures
            r == self.release_candidate_num,
    {
        self.release_candidate_num
    }

    /// Equal but for the `.old` mark: a `.old` install maps to the source and
    /// module directories of its current counterpart.
    pub fn eq_ignore_is_old(&self, other: &Self) -> (r: bool)
        ensures
            r == same_release(*self, *other),
    {
        self.major == other.major && self.minor == other.minor && self.patch == other.patch
            && self.release_candidate_num == other.release_candidate_num
    }

    /// The same version, without the `.old` mark.
    pub fn current_counterpart(&self) -> (r: KernelVersion)
        ensures
            r == counterpart(*self),
    {
        KernelVersion { current: true, ..*self }
    }

    /// Whether `self` comes before `other`.
    pub fn less_than(&self, other: &Self) -> (r: bool)
        ensures
            r == version_less(*self, *other),
    {
        if self.major != other.major {
            return self.major < other.major;
        }
        if self.minor != other.minor {
            return self.minor < other.minor;
        }
        if self.patch != other.patch {
            return self.patch < other.patch;
        }
        match (self.release_candidate_num, other.release_candidate_num) {
            (None, Some(_)) => {
                return true;
            },
            (Some(_), None) => {
                return false;
            },
            (Some(x), Some(y)) => {
                if x != y {
                    return x < y;
                }
            },
            (None, None) => {},
        }
        !self.current && other.current
    }

    /// The canonical text `major.minor.patch[-rcN][.old]`.
    pub fn render(&self) -> (r: String)
        ensures
            r@ == render_spec(*self),
    {
        let mut out: Vec<char> = Vec::new();
        push_decimal(&mut out, self.major);
        out.push('.');
        push_decimal(&mut out, self.minor);
        out.push('.');
        push_decimal(&mut out, self.patch);
        proof {
            reveal_strlit("-rc");
            reveal_strlit(".old");
        }
        match self.release_candidate_num {
            Some(n) => {
                push_str(&mut out, "-rc");
                push_decimal(&mut out, n);
            },
            None => {},
        }
        if !self.current {
            push_str(&mut out, ".old");
        }
        assert(out@ =~= render_spec(*self));
        string_of(out.as_slice())
    }
}

impl VersionParseError {
    pub fn message(&self) -> (r: String)
        ensures
            r@ == "Could not parse "@ + self.path@ + " as a kernel version"@,
    {
        let mut out: Vec<char> = Vec::new();
        proof {
            reveal_strlit("Could not parse ");
            reveal_strlit(" as a kernel version");
        }
        push_str(&mut out, "Could not parse ");
        push_str(&mut out, self.path.as_str());
        push_str(&mut out, " as a kernel version");
        string_of(out.as_slice())
    }
}

impl PartialOrd for KernelVersion {
    fn partial_cmp(&self, other: &Self) -> (r: Option<core::cmp::Ordering>) {
        if self.less_than(other) {
            Some(core::cmp::Ordering::Less)
        } else if *self == *other {
            Some(core::cmp::Ordering::Equal)
        } else {
            Some(core::cmp::Ordering::Greater)
        }
    }
}

impl vstd::std_specs::cmp::PartialOrdSpecImpl for KernelVersion {
    open spec fn obeys_partial_cmp_spec() -> bool {
        true
    }

    open spec fn partial_cmp_spec(&self, other: &Self) -> Option<core::cmp::Ordering> {
        Some(version_cmp(*self, *other))
    }
}

} // verus!
