use vstd::prelude::*;

verus! {

/// A decimal digit, `'0'` to `'9'`.
pub open spec fn is_digit(c: char) -> bool {
    '0' <= c && c <= '9'
}

pub open spec fn digit_value(c: char) -> nat {
    (c as int - '0' as int) as nat
}

pub open spec fn all_digits(s: Seq<char>) -> bool {
    forall|i: int| 0 <= i < s.len() ==> is_digit(#[trigger] s[i])
}

/// The number that a string of decimal digits writes, most significant digit first.
pub open spec fn digits_value(s: Seq<char>) -> nat
    decreases s.len(),
{
    if s.len() == 0 {
        0
    } else {
        digits_value(s.drop_last()) * 10 + digit_value(s.last())
    }
}

/// How an unsigned integer is read from text: an optional `+`, then one or
/// more decimal digits.
pub open spec fn unsigned_value(s: Seq<char>) -> Option<nat> {
    let d = if s.len() > 0 && s[0] == '+' {
        s.drop_first()
    } else {
        s
    };
    if d.len() > 0 && all_digits(d) {
        Some(digits_value(d))
    } else {
        None
    }
}

/// The text read as an unsigned integer no larger than `max`.
pub open spec fn bounded_value(s: Seq<char>, max: nat) -> Option<nat> {
    match unsigned_value(s) {
        Some(n) => if n <= max {
            Some(n)
        } else {
            None
        },
        None => None,
    }
}

pub open spec fn parse_u32_spec(s: Seq<char>) -> Option<u32> {
    match bounded_value(s, u32::MAX as nat) {
        Some(n) => Some(n as u32),
        None => None,
    }
}

pub open spec fn parse_usize_spec(s: Seq<char>) -> Option<usize> {
    match bounded_value(s, usize::MAX as nat) {
        Some(n) => Some(n as usize),
        None => None,
    }
}

pub open spec fn digit_char(d: nat) -> char {
    ((d % 10) + '0' as nat) as char
}

/// The decimal text of a number, without leading zeros.
pub open spec fn decimal_text(n: nat) -> Seq<char>
    decreases n,
{
    if n < 10 {
        seq![digit_char(n)]
    } else {
        decimal_text(n / 10).push(digit_char(n % 10))
    }
}

/// `i` is the first position of `c` in `s`.
pub open spec fn is_first_at(s: Seq<char>, c: char, i: int) -> bool {
    &&& 0 <= i < s.len()
    &&& s[i] == c
    &&& forall|j: int| 0 <= j < i ==> s[j] != c
}

/// The first position of `c` in `s`, if any.
pub open spec fn find_char(s: Seq<char>, c: char) -> Option<int> {
    if exists|i: int| is_first_at(s, c, i) {
        Some(choose|i: int| is_first_at(s, c, i))
    } else {
        None
    }
}

/// The `k`-th (from zero) of the pieces that `s` splits into at each `sep`.
pub open spec fn field(s: Seq<char>, sep: char, k: nat) -> Option<Seq<char>>
    decreases k,
{
    match find_char(s, sep) {
        Some(i) => if k == 0 {
            Some(s.take(i))
        } else {
            field(s.skip(i + 1), sep, (k - 1) as nat)
        },
        None => if k == 0 {
            Some(s)
        } else {
            None
        },
    }
}

pub open spec fn starts_with(s: Seq<char>, p: Seq<char>) -> bool {
    p.len() <= s.len() && s.take(p.len() as int) == p
}

pub open spec fn ends_with(s: Seq<char>, p: Seq<char>) -> bool {
    p.len() <= s.len() && s.skip(s.len() - p.len()) == p
}

/// The characters of a string, one by one.
pub fn chars_of(s: &str) -> (r: Vec<char>)
    ensures
        r@ == s@,
{
    let n = s.unicode_len();
    let mut r: Vec<char> = Vec::new();
    let mut i: usize = 0;
    while i < n
        invariant
            n == s@.len(),
            i <= n,
            r@ == s@.take(i as int),
        decreases n - i,
    {
        r.push(s.get_char(i));
        i += 1;
        assert(r@ =~= s@.take(i as int));
    }
    assert(r@ =~= s@);
    r
}

/// Relies on `FromIterator<char>` for `String`: the string holds the given
/// characters in order.
#[verifier::external_body]
pub fn string_of(cs: &[char]) -> (r: String)
    ensures
        r@ == cs@,
{
    cs.iter().collect()
}

pub proof fn lemma_unique_first(s: Seq<char>, c: char, i: int, j: int)
    requires
        is_first_at(s, c, i),
        is_first_at(s, c, j),
    ensures
        i == j,
{
    if i < j {
        assert(s[i] != c);
    } else if j < i {
        assert(s[j] != c);
    }
}

/// The first position of `c` in `cs[lo..hi]`, counted from the start of `cs`.
pub fn find_in(cs: &[char], lo: usize, hi: usize, c: char) -> (r: Option<usize>)
    requires
        lo <= hi <= cs@.len(),
    ensures
        match r {
            Some(i) => lo <= i < hi && find_char(cs@.subrange(lo as int, hi as int), c) == Some(
                i - lo,
            ),
            None => find_char(cs@.subrange(lo as int, hi as int), c) is None,
        },
{
    let ghost s = cs@.subrange(lo as int, hi as int);
    let mut i: usize = lo;
    while i < hi
        invariant
            lo <= i <= hi <= cs@.len(),
            s == cs@.subrange(lo as int, hi as int),
            forall|j: int| 0 <= j < i - lo ==> s[j] != c,
        decreases hi - i,
    {
        if cs[i] == c {
            proof {
                let k = (i - lo) as int;
                assert(is_first_at(s, c, k));
                let w = choose|w: int| is_first_at(s, c, w);
                lemma_unique_first(s, c, k, w);
            }
            return Some(i);
        }
        i += 1;
    }
    proof {
        assert forall|k: int| !is_first_at(s, c, k) by {
            if is_first_at(s, c, k) {
                assert(s[k] != c);
            }
        }
    }
    None
}

/// The bounds in `cs` of the `k`-th piece of `cs[lo..hi]` split at `sep`.
pub fn field_in(cs: &[char], lo: usize, hi: usize, sep: char, k: usize) -> (r: Option<
    (usize, usize),
>)
    requires
        lo <= hi <= cs@.len(),
    ensures
        match r {
            Some((a, b)) => lo <= a <= b <= hi && field(
                cs@.subrange(lo as int, hi as int),
                sep,
                k as nat,
            ) == Some(cs@.subrange(a as int, b as int)),
            None => field(cs@.subrange(lo as int, hi as int), sep, k as nat) is None,
        },
    decreases k,
{
    let ghost s = cs@.subrange(lo as int, hi as int);
    match find_in(cs, lo, hi, sep) {
        Some(i) => {
            if k == 0 {
                assert(s.take(i - lo) =~= cs@.subrange(lo as int, i as int));
                Some((lo, i))
            } else {
                assert(s.skip(i - lo + 1) =~= cs@.subrange(i + 1, hi as int));
                field_in(cs, i + 1, hi, sep, k - 1)
            }
        },
        None => {
            if k == 0 {
                Some((lo, hi))
            } else {
                None
            }
        },
    }
}

pub fn starts_with_at(cs: &[char], lo: usize, hi: usize, p: &str) -> (r: bool)
    requires
        lo <= hi <= cs@.len(),
    ensures
        r == starts_with(cs@.subrange(lo as int, hi as int), p@),
{
    let ghost s = cs@.subrange(lo as int, hi as int);
    let n = p.unicode_len();
    if n > hi - lo {
        return false;
    }
    let mut i: usize = 0;
    while i < n
        invariant
            n == p@.len(),
            n <= hi - lo,
            lo <= hi <= cs@.len(),
            s == cs@.subrange(lo as int, hi as int),
            i <= n,
            forall|j: int| 0 <= j < i ==> s[j] == p@[j],
        decreases n - i,
    {
        if cs[lo + i] != p.get_char(i) {
            assert(s.take(n as int)[i as int] != p@[i as int]);
            return false;
        }
        i += 1;
    }
    assert(s.take(n as int) =~= p@);
    true
}

pub fn ends_with_chars(cs: &[char], p: &str) -> (r: bool)
    ensures
        r == ends_with(cs@, p@),
{
    let n = p.unicode_len();
    let len = cs.len();
    if n > len {
        return false;
    }
    let r = starts_with_at(cs, len - n, len, p);
    assert(cs@.subrange((len - n) as int, len as int).take(n as int) =~= cs@.skip(
        (len - n) as int,
    ));
    r
}

proof fn lemma_digits_push(s: Seq<char>, c: char)
    ensures
        digits_value(s.push(c)) == digits_value(s) * 10 + digit_value(c),
{
    assert(s.push(c).drop_last() =~= s);
}

/// Reads `cs[lo..hi]` as an unsigned integer no larger than `max`.
fn parse_bounded(cs: &[char], lo: usize, hi: usize, max: u64) -> (r: Option<u64>)
    requires
        lo <= hi <= cs@.len(),
        max >= 9,
    ensures
        match r {
            Some(n) => bounded_value(cs@.subrange(lo as int, hi as int), max as nat) == Some(
                n as nat,
            ),
            None => bounded_value(cs@.subrange(lo as int, hi as int), max as nat) is None,
        },
{
    let ghost s = cs@.subrange(lo as int, hi as int);
    let start: usize = if lo < hi && cs[lo] == '+' {
        lo + 1
    } else {
        lo
    };
    let ghost d = cs@.subrange(start as int, hi as int);
    assert(d =~= if s.len() > 0 && s[0] == '+' {
        s.drop_first()
    } else {
        s
    });
    if start == hi {
        return None;
    }
    let mut value: u64 = 0;
    let mut over = false;
    let mut i: usize = start;
    while i < hi
        invariant
            lo <= start <= i <= hi <= cs@.len(),
            d == cs@.subrange(start as int, hi as int),
            s == cs@.subrange(lo as int, hi as int),
            d == (if s.len() > 0 && s[0] == '+' {
                s.drop_first()
            } else {
                s
            }),
            all_digits(cs@.subrange(start as int, i as int)),
            !over ==> value as nat == digits_value(cs@.subrange(start as int, i as int)),
            !over ==> value <= max,
            over ==> digits_value(cs@.subrange(start as int, i as int)) > max,
            max >= 9,
        decreases hi - i,
    {
        let c = cs[i];
        let ghost prev = cs@.subrange(start as int, i as int);
        assert(cs@.subrange(start as int, i + 1) =~= prev.push(c));
        proof {
            lemma_digits_push(prev, c);
        }
        if !('0' <= c && c <= '9') {
            assert(d[i - start] == c);
            assert(!all_digits(d));
            return None;
        }
        let dv: u64 = (c as u32 - '0' as u32) as u64;
        if !over {
            if value > (max - dv) / 10 {
                over = true;
                assert(value * 10 + dv > max) by (nonlinear_arith)
                    requires
                        value > (max - dv) / 10,
                        dv <= 9,
                        dv <= max,
                ;
            } else {
                assert(value * 10 + dv <= max) by (nonlinear_arith)
                    requires
                        value <= (max - dv) / 10,
                        dv <= max,
                ;
                value = value * 10 + dv;
            }
        } else {
            assert(digits_value(prev) * 10 + digit_value(c) > max) by (nonlinear_arith)
                requires
                    digits_value(prev) > max,
            ;
        }
        i += 1;
        assert(all_digits(cs@.subrange(start as int, i as int)));
    }
    assert(cs@.subrange(start as int, i as int) =~= d);
    if over {
        None
    } else {
        Some(value)
    }
}

pub fn parse_u32(cs: &[char], lo: usize, hi: usize) -> (r: Option<u32>)
    requires
        lo <= hi <= cs@.len(),
    ensures
        r == parse_u32_spec(cs@.subrange(lo as int, hi as int)),
{
    match parse_bounded(cs, lo, hi, u32::MAX as u64) {
        Some(n) => Some(n as u32),
        None => None,
    }
}

pub fn parse_usize(cs: &[char], lo: usize, hi: usize) -> (r: Option<usize>)
    requires
        lo <= hi <= cs@.len(),
    ensures
        r == parse_usize_spec(cs@.subrange(lo as int, hi as int)),
{
    match parse_bounded(cs, lo, hi, usize::MAX as u64) {
        Some(n) => Some(n as usize),
        None => None,
    }
}

/// Appends the decimal text of `n`.
pub fn push_decimal(out: &mut Vec<char>, n: u32)
    ensures
        final(out)@ == old(out)@ + decimal_text(n as nat),
    decreases n,
{
    if n >= 10 {
        push_decimal(out, n / 10);
    }
    let d: u32 = n % 10;
    let c = char_of_digit(d);
    out.push(c);
    proof {
        if n >= 10 {
            assert(decimal_text(n as nat) == decimal_text((n / 10) as nat).push(
                digit_char((n % 10) as nat),
            ));
        }
    }
    assert(final(out)@ =~= old(out)@ + decimal_text(n as nat));
}

fn char_of_digit(d: u32) -> (c: char)
    requires
        d < 10,
    ensures
        c == digit_char(d as nat),
{
    if d == 0 {
        '0'
    } else if d == 1 {
        '1'
    } else if d == 2 {
        '2'
    } else if d == 3 {
        '3'
    } else if d == 4 {
        '4'
    } else if d == 5 {
        '5'
    } else if d == 6 {
        '6'
    } else if d == 7 {
        '7'
    } else if d == 8 {
        '8'
    } else {
        '9'
    }
}

/// Appends the characters of `s`.
pub fn push_str(out: &mut Vec<char>, s: &str)
    ensures
        final(out)@ == old(out)@ + s@,
{
    let n = s.unicode_len();
    let ghost start = out@;
    let mut i: usize = 0;
    while i < n
        invariant
            n == s@.len(),
            i <= n,
            out@ == start + s@.take(i as int),
        decreases n - i,
    {
        out.push(s.get_char(i));
        i += 1;
        assert(out@ =~= start + s@.take(i as int));
    }
    assert(s@.take(n as int) =~= s@);
}

/// A character with the Unicode `White_Space` property, the set that
/// `char::is_whitespace` tests.
pub open spec fn is_white(c: char) -> bool {
    ||| '\t' <= c && c <= '\r'
    ||| c == ' '
    ||| c == '\u{85}'
    ||| c == '\u{a0}'
    ||| c == '\u{1680}'
    ||| '\u{2000}' <= c && c <= '\u{200a}'
    ||| c == '\u{2028}'
    ||| c == '\u{2029}'
    ||| c == '\u{202f}'
    ||| c == '\u{205f}'
    ||| c == '\u{3000}'
}

pub fn is_white_char(c: char) -> (r: bool)
    ensures
        r == is_white(c),
{
    ('\t' <= c && c <= '\r') || c == ' ' || c == '\u{85}' || c == '\u{a0}' || c == '\u{1680}' || (
    '\u{2000}' <= c && c <= '\u{200a}') || c == '\u{2028}' || c == '\u{2029}' || c == '\u{202f}'
        || c == '\u{205f}' || c == '\u{3000}'
}

/// `s` without its leading white space.
pub open spec fn trim_start(s: Seq<char>) -> Seq<char>
    decreases s.len(),
{
    if s.len() > 0 && is_white(s[0]) {
        trim_start(s.drop_first())
    } else {
        s
    }
}

/// `s` without its trailing white space.
pub open spec fn trim_end(s: Seq<char>) -> Seq<char>
    decreases s.len(),
{
    if s.len() > 0 && is_white(s.last()) {
        trim_end(s.drop_last())
    } else {
        s
    }
}

pub open spec fn trim(s: Seq<char>) -> Seq<char> {
    trim_end(trim_start(s))
}

/// `s` without the copies of `c` it starts with.
pub open spec fn strip_start_char(s: Seq<char>, c: char) -> Seq<char>
    decreases s.len(),
{
    if s.len() > 0 && s[0] == c {
        strip_start_char(s.drop_first(), c)
    } else {
        s
    }
}

/// `s` without the copies of `c` it ends with.
pub open spec fn strip_end_char(s: Seq<char>, c: char) -> Seq<char>
    decreases s.len(),
{
    if s.len() > 0 && s.last() == c {
        strip_end_char(s.drop_last(), c)
    } else {
        s
    }
}

/// Where the text of `cs[lo..hi]` starts once leading white space is skipped.
pub fn trim_start_in(cs: &[char], lo: usize, hi: usize) -> (a: usize)
    requires
        lo <= hi <= cs@.len(),
    ensures
        lo <= a <= hi,
        cs@.subrange(a as int, hi as int) == trim_start(cs@.subrange(lo as int, hi as int)),
{
    let mut a: usize = lo;
    while a < hi && is_white_char(cs[a])
        invariant
            lo <= a <= hi <= cs@.len(),
            trim_start(cs@.subrange(a as int, hi as int)) == trim_start(
                cs@.subrange(lo as int, hi as int),
            ),
        decreases hi - a,
    {
        assert(cs@.subrange(a as int, hi as int).drop_first() =~= cs@.subrange(a + 1, hi as int));
        a += 1;
    }
    a
}

/// The bounds of `cs[lo..hi]` with white space trimmed from both ends.
pub fn trim_in(cs: &[char], lo: usize, hi: usize) -> (r: (usize, usize))
    requires
        lo <= hi <= cs@.len(),
    ensures
        lo <= r.0 <= r.1 <= hi,
        cs@.subrange(r.0 as int, r.1 as int) == trim(cs@.subrange(lo as int, hi as int)),
{
    let a = trim_start_in(cs, lo, hi);
    let mut b: usize = hi;
    while b > a && is_white_char(cs[b - 1])
        invariant
            lo <= a <= b <= hi <= cs@.len(),
            trim_end(cs@.subrange(a as int, b as int)) == trim_end(cs@.subrange(a as int, hi as int)),
        decreases b - a,
    {
        assert(cs@.subrange(a as int, b as int).drop_last() =~= cs@.subrange(a as int, b - 1));
        b -= 1;
    }
    (a, b)
}

/// The bounds of `cs[lo..hi]` without the copies of `c` it starts with and
/// then those of `d` it ends with.
pub fn strip_chars_in(cs: &[char], lo: usize, hi: usize, c: char, d: char) -> (r: (usize, usize))
    requires
        lo <= hi <= cs@.len(),
    ensures
        lo <= r.0 <= r.1 <= hi,
        cs@.subrange(r.0 as int, r.1 as int) == strip_end_char(
            strip_start_char(cs@.subrange(lo as int, hi as int), c),
            d,
        ),
{
    let mut a: usize = lo;
    while a < hi && cs[a] == c
        invariant
            lo <= a <= hi <= cs@.len(),
            strip_start_char(cs@.subrange(a as int, hi as int), c) == strip_start_char(
                cs@.subrange(lo as int, hi as int),
                c,
            ),
        decreases hi - a,
    {
        assert(cs@.subrange(a as int, hi as int).drop_first() =~= cs@.subrange(a + 1, hi as int));
        a += 1;
    }
    let mut b: usize = hi;
    while b > a && cs[b - 1] == d
        invariant
            lo <= a <= b <= hi <= cs@.len(),
            strip_end_char(cs@.subrange(a as int, b as int), d) == strip_end_char(
                cs@.subrange(a as int, hi as int),
                d,
            ),
        decreases b - a,
    {
        assert(cs@.subrange(a as int, b as int).drop_last() =~= cs@.subrange(a as int, b - 1));
        b -= 1;
    }
    (a, b)
}

/// The text of `cs[lo..hi]` as a `String`.
pub fn string_in(cs: &[char], lo: usize, hi: usize) -> (r: String)
    requires
        lo <= hi <= cs@.len(),
    ensures
        r@ == cs@.subrange(lo as int, hi as int),
{
    let mut v: Vec<char> = Vec::new();
    let mut i: usize = lo;
    while i < hi
        invariant
            lo <= i <= hi <= cs@.len(),
            v@ == cs@.subrange(lo as int, i as int),
        decreases hi - i,
    {
        v.push(cs[i]);
        i += 1;
        assert(v@ =~= cs@.subrange(lo as int, i as int));
    }
    string_of(v.as_slice())
}

/// `s` holds no `c`.
pub open spec fn lacks(s: Seq<char>, c: char) -> bool {
    forall|i: int| 0 <= i < s.len() ==> s[i] != c
}

pub proof fn lemma_find_first(a: Seq<char>, c: char, b: Seq<char>)
    requires
        lacks(a, c),
    ensures
        find_char(a + seq![c] + b, c) == Some(a.len() as int),
{
    let s = a + seq![c] + b;
    assert(is_first_at(s, c, a.len() as int));
    let w = choose|w: int| is_first_at(s, c, w);
    lemma_unique_first(s, c, a.len() as int, w);
}

pub proof fn lemma_find_none(a: Seq<char>, c: char)
    requires
        lacks(a, c),
    ensures
        find_char(a, c) is None,
{
    if exists|i: int| is_first_at(a, c, i) {
        let i = choose|i: int| is_first_at(a, c, i);
        assert(a[i] != c);
    }
}

/// Splitting `a`, `c`, `b` at `c`, where `a` holds no `c`: `a` comes first,
/// and the later pieces are those of `b`.
pub proof fn lemma_field_split(a: Seq<char>, c: char, b: Seq<char>, k: nat)
    requires
        lacks(a, c),
    ensures
        field(a + seq![c] + b, c, 0) == Some(a),
        field(a + seq![c] + b, c, k + 1) == field(b, c, k),
{
    lemma_find_first(a, c, b);
    let s = a + seq![c] + b;
    assert(s.take(a.len() as int) =~= a);
    assert(s.skip(a.len() as int + 1) =~= b);
}

pub proof fn lemma_field_whole(a: Seq<char>, c: char)
    requires
        lacks(a, c),
    ensures
        field(a, c, 0) == Some(a),
{
    lemma_find_none(a, c);
}

/// The decimal text of a number is a non-empty run of digits that reads as
/// the number.
pub proof fn lemma_decimal_text(n: nat)
    ensures
        decimal_text(n).len() > 0,
        all_digits(decimal_text(n)),
        digits_value(decimal_text(n)) == n,
    decreases n,
{
    let d = decimal_text(n);
    if n < 10 {
        assert(d.drop_last() =~= Seq::<char>::empty());
        assert(d.last() == digit_char(n));
        assert(digit_value(digit_char(n)) == n);
        assert(digits_value(Seq::<char>::empty()) == 0);
    } else {
        lemma_decimal_text(n / 10);
        let p = decimal_text(n / 10);
        let c = digit_char(n % 10);
        lemma_digits_push(p, c);
        assert(digit_value(c) == n % 10);
        assert((n / 10) * 10 + n % 10 == n) by (nonlinear_arith);
        assert(forall|i: int| 0 <= i < p.len() ==> d[i] == p[i]);
        assert(d[p.len() as int] == c);
    }
}

} // verus!
