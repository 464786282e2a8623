use vstd::prelude::*;

use crate::error::JanitorError;
use crate::text::{
    chars_of, ends_with, find_char, find_in, parse_usize, parse_usize_spec, starts_with,
    starts_with_at, strip_chars_in, strip_end_char, strip_start_char, string_in, trim, trim_in,
    trim_start, trim_start_in,
};

verus! {

/// A `name = value` line of a configuration file.
#[derive(Debug)]
pub struct ConfigEntry {
    pub name: String,
    pub value: String,
}

/// What one line of a configuration file is.
#[derive(Debug)]
pub enum ConfigLineKind {
    Entry(ConfigEntry),
    Section(String),
    Comment,
    ParseError(String),
}

pub struct EntryView {
    pub name: Seq<char>,
    pub value: Seq<char>,
}

impl View for ConfigEntry {
    type V = EntryView;

    open spec fn view(&self) -> EntryView {
        EntryView { name: self.name@, value: self.value@ }
    }
}

pub enum LineView {
    Entry(EntryView),
    Section(Seq<char>),
    Comment,
    ParseError(Seq<char>),
}

impl View for ConfigLineKind {
    type V = LineView;

    open spec fn view(&self) -> LineView {
        match self {
            ConfigLineKind::Entry(e) => LineView::Entry(e@),
            ConfigLineKind::Section(s) => LineView::Section(s@),
            ConfigLineKind::Comment => LineView::Comment,
            ConfigLineKind::ParseError(s) => LineView::ParseError(s@),
        }
    }
}

/// The text before any comment: nothing where the line is a comment, else
/// what comes before the first `#`.
pub open spec fn strip_comment_spec(s: Seq<char>) -> Seq<char> {
    if starts_with(trim_start(s), seq!['#']) {
        Seq::empty()
    } else {
        match find_char(s, '#') {
            Some(i) => s.take(i),
            None => s,
        }
    }
}

/// `name = value`: the name is what comes before the first `=`, trimmed; the
/// value is what follows it with any comment removed, trimmed. A line without
/// `=`, or with nothing after it, is no entry.
pub open spec fn entry_spec(s: Seq<char>) -> Option<EntryView> {
    match find_char(s, '=') {
        Some(i) => if i + 1 == s.len() {
            None
        } else {
            Some(
                EntryView {
                    name: trim(s.take(i)),
                    value: trim(strip_comment_spec(s.skip(i + 1))),
                },
            )
        },
        None => None,
    }
}

/// A line is a comment where nothing stands before its comment, a section
/// where its trimmed text is in brackets, else an entry or an error.
pub open spec fn line_spec(s: Seq<char>) -> LineView {
    if strip_comment_spec(s).len() == 0 {
        LineView::Comment
    } else {
        let t = trim(s);
        if starts_with(t, seq!['[']) && ends_with(t, seq![']']) {
            LineView::Section(strip_end_char(strip_start_char(t, '['), ']'))
        } else {
            match entry_spec(t) {
                Some(e) => LineView::Entry(e),
                None => LineView::ParseError(t),
            }
        }
    }
}

/// The end of the text before any comment in `cs[lo..hi]`.
fn strip_comment_in(cs: &[char], lo: usize, hi: usize) -> (e: usize)
    requires
        lo <= hi <= cs@.len(),
    ensures
        lo <= e <= hi,
        cs@.subrange(lo as int, e as int) == strip_comment_spec(cs@.subrange(lo as int, hi as int)),
{
    let ghost s = cs@.subrange(lo as int, hi as int);
    let a = trim_start_in(cs, lo, hi);
    proof {
        reveal_strlit("#");
        assert("#"@ =~= seq!['#']);
    }
    if starts_with_at(cs, a, hi, "#") {
        assert(cs@.subrange(lo as int, lo as int) =~= Seq::<char>::empty());
        return lo;
    }
    match find_in(cs, lo, hi, '#') {
        Some(i) => {
            assert(s.take(i - lo) =~= cs@.subrange(lo as int, i as int));
            i
        },
        None => hi,
    }
}

/// The text of a line before any comment.
pub fn strip_comment(text: &str) -> (r: String)
    ensures
        r@ == strip_comment_spec(text@),
{
    let cs = chars_of(text);
    assert(cs@.subrange(0, cs@.len() as int) =~= cs@);
    let e = strip_comment_in(cs.as_slice(), 0, cs.len());
    string_in(cs.as_slice(), 0, e)
}

fn entry_in(cs: &[char], lo: usize, hi: usize) -> (r: Option<ConfigEntry>)
    requires
        lo <= hi <= cs@.len(),
    ensures
        match r {
            Some(e) => entry_spec(cs@.subrange(lo as int, hi as int)) == Some(e@),
            None => entry_spec(cs@.subrange(lo as int, hi as int)) is None,
        },
{
    let ghost s = cs@.subrange(lo as int, hi as int);
    match find_in(cs, lo, hi, '=') {
        Some(i) => {
            if i + 1 == hi {
                return None;
            }
            assert(s.take(i - lo) =~= cs@.subrange(lo as int, i as int));
            assert(s.skip(i - lo + 1) =~= cs@.subrange(i + 1, hi as int));
            let (na, nb) = trim_in(cs, lo, i);
            let e = strip_comment_in(cs, i + 1, hi);
            let (va, vb) = trim_in(cs, i + 1, e);
            Some(ConfigEntry { name: string_in(cs, na, nb), value: string_in(cs, va, vb) })
        },
        None => None,
    }
}

impl ConfigEntry {
    /// Reads `name = value` (see `entry_spec`).
    pub fn new(line: &str) -> (r: Option<ConfigEntry>)
        ensures
            match r {
                Some(e) => entry_spec(line@) == Some(e@),
                None => entry_spec(line@) is None,
            },
    {
        let cs = chars_of(line);
        assert(cs@.subrange(0, cs@.len() as int) =~= cs@);
        entry_in(cs.as_slice(), 0, cs.len())
    }
}

impl ConfigLineKind {
    /// Reads one line of a configuration file (see `line_spec`).
    pub fn parse(line: &str) -> (r: ConfigLineKind)
        ensures
            r@ == line_spec(line@),
    {
        let cs = chars_of(line);
        let n = cs.len();
        assert(cs@.subrange(0, n as int) =~= cs@);
        let e = strip_comment_in(cs.as_slice(), 0, n);
        if e == 0 {
            return ConfigLineKind::Comment;
        }
        let (a, b) = trim_in(cs.as_slice(), 0, n);
        let ghost t = cs@.subrange(a as int, b as int);
        proof {
            reveal_strlit("[");
            reveal_strlit("]");
            assert("["@ =~= seq!['[']);
            assert("]"@ =~= seq![']']);
        }
        let opens = starts_with_at(cs.as_slice(), a, b, "[");
        let closes = if b > a {
            cs[b - 1] == ']'
        } else {
            false
        };
        assert(closes == ends_with(t, seq![']'])) by {
            if b > a {
                assert(t.skip(t.len() - 1) =~= seq![cs@[b - 1]]);
                assert(seq![cs@[b - 1]][0] == cs@[b - 1]);
                assert(seq![']'][0] == ']');
            }
        }
        if opens && closes {
            let (sa, sb) = strip_chars_in(cs.as_slice(), a, b, '[', ']');
            return ConfigLineKind::Section(string_in(cs.as_slice(), sa, sb));
        }
        match entry_in(cs.as_slice(), a, b) {
            Some(entry) => ConfigLineKind::Entry(entry),
            None => ConfigLineKind::ParseError(string_in(cs.as_slice(), a, b)),
        }
    }
}

/// The entries of a configuration file, in order.
pub struct Config {
    pub entries: Vec<ConfigEntry>,
}

pub open spec fn entries_view(es: Seq<ConfigEntry>) -> Seq<EntryView> {
    es.map_values(|e: ConfigEntry| e@)
}

/// The value of the last entry called `name`: a later entry overrides an
/// earlier one.
pub open spec fn lookup(es: Seq<EntryView>, name: Seq<char>) -> Option<Seq<char>>
    decreases es.len(),
{
    if es.len() == 0 {
        None
    } else if es.last().name == name {
        Some(es.last().value)
    } else {
        lookup(es.drop_last(), name)
    }
}

/// The entries of a file's lines, or the first line that is neither an
/// entry, a section nor a comment. Sections are read and ignored.
pub open spec fn config_spec(lines: Seq<Seq<char>>) -> Result<Seq<EntryView>, Seq<char>>
    decreases lines.len(),
{
    if lines.len() == 0 {
        Ok(Seq::empty())
    } else {
        match config_spec(lines.drop_last()) {
            Ok(es) => match line_spec(lines.last()) {
                LineView::Entry(e) => Ok(es.push(e)),
                LineView::ParseError(t) => Err(t),
                _ => Ok(es),
            },
            Err(t) => Err(t),
        }
    }
}

/// A line without the carriage return of a `\r\n` ending.
pub open spec fn strip_cr(l: Seq<char>) -> Seq<char> {
    if l.len() > 0 && l.last() == '\r' {
        l.drop_last()
    } else {
        l
    }
}

/// The lines of a text, as `str::lines` gives them: split after each `\n`,
/// a `\r` just before it dropped, and no empty line after a final `\n`.
pub open spec fn lines_spec(s: Seq<char>) -> Seq<Seq<char>>
    decreases s.len(),
{
    if s.len() == 0 {
        Seq::empty()
    } else {
        match find_char(s, '\n') {
            Some(i) => seq![strip_cr(s.take(i))] + lines_spec(s.skip(i + 1)),
            None => seq![s],
        }
    }
}

/// The lines of `cs[lo..]` (see `lines_spec`), appended to `out`.
fn split_lines_from(cs: &[char], lo: usize, out: &mut Vec<String>)
    requires
        lo <= cs@.len(),
    ensures
        final(out)@.map_values(|l: String| l@) == old(out)@.map_values(|l: String| l@) + lines_spec(
            cs@.subrange(lo as int, cs@.len() as int),
        ),
    decreases cs@.len() - lo,
{
    let n = cs.len();
    let ghost s = cs@.subrange(lo as int, n as int);
    let ghost start = out@.map_values(|l: String| l@);
    if lo == n {
        assert(s =~= Seq::<char>::empty());
        assert(start + lines_spec(s) =~= start);
        return;
    }
    match find_in(cs, lo, n, '\n') {
        Some(i) => {
            let end = if i > lo && cs[i - 1] == '\r' {
                i - 1
            } else {
                i
            };
            assert(s.take(i - lo) =~= cs@.subrange(lo as int, i as int));
            assert(cs@.subrange(lo as int, end as int) == strip_cr(cs@.subrange(lo as int, i as int)))
                by {
                if i > lo && cs@[i - 1] == '\r' {
                    assert(cs@.subrange(lo as int, i as int).drop_last() =~= cs@.subrange(
                        lo as int,
                        i - 1,
                    ));
                }
            }
            assert(s.skip(i - lo + 1) =~= cs@.subrange(i + 1, n as int));
            let line = string_in(cs, lo, end);
            out.push(line);
            assert(out@.map_values(|l: String| l@) =~= start.push(line@));
            split_lines_from(cs, i + 1, out);
            assert(start.push(line@) + lines_spec(cs@.subrange(i + 1, n as int)) =~= start + lines_spec(
                s,
            ));
        },
        None => {
            let line = string_in(cs, lo, n);
            out.push(line);
            assert(out@.map_values(|l: String| l@) =~= start + lines_spec(s));
        },
    }
}

/// The text of `str::parse::<bool>`: exactly `true` or `false`.
pub open spec fn parse_bool_spec(s: Seq<char>) -> Option<bool> {
    if s == seq!['t', 'r', 'u', 'e'] {
        Some(true)
    } else if s == seq!['f', 'a', 'l', 's', 'e'] {
        Some(false)
    } else {
        None
    }
}

fn parse_bool(s: &String) -> (r: Option<bool>)
    ensures
        r == parse_bool_spec(s@),
{
    proof {
        reveal_strlit("true");
        reveal_strlit("false");
        assert("true"@ =~= seq!['t', 'r', 'u', 'e']);
        assert("false"@ =~= seq!['f', 'a', 'l', 's', 'e']);
    }
    if *s == String::from_str("true") {
        Some(true)
    } else if *s == String::from_str("false") {
        Some(false)
    } else {
        None
    }
}

impl Config {
    /// Reads the text of a configuration file, line by line (see
    /// `lines_spec` and `config_spec`).
    pub fn new(contents: &str) -> (r: Result<Config, JanitorError>)
        ensures
            match r {
                Ok(c) => config_spec(lines_spec(contents@)) == Ok::<Seq<EntryView>, Seq<char>>(
                    entries_view(c.entries@),
                ),
                Err(e) => config_spec(lines_spec(contents@)) == Err::<Seq<EntryView>, Seq<char>>(
                    e.message@,
                ) && e.kind@ == "unknown"@,
            },
    {
        let cs = chars_of(contents);
        let mut lines: Vec<String> = Vec::new();
        split_lines_from(cs.as_slice(), 0, &mut lines);
        assert(cs@.subrange(0, cs@.len() as int) =~= cs@);
        assert(lines@.map_values(|l: String| l@) =~= lines_spec(contents@));
        Config::from_lines(&lines)
    }

    /// Reads the lines of a configuration file (see `config_spec`); the error
    /// holds the first line that could not be read.
    pub fn from_lines(lines: &Vec<String>) -> (r: Result<Config, JanitorError>)
        ensures
            match r {
                Ok(c) => config_spec(lines@.map_values(|l: String| l@)) == Ok::<
                    Seq<EntryView>,
                    Seq<char>,
                >(entries_view(c.entries@)),
                Err(e) => config_spec(lines@.map_values(|l: String| l@)) == Err::<
                    Seq<EntryView>,
                    Seq<char>,
                >(e.message@) && e.kind@ == "unknown"@,
            },
    {
        let ghost lv = lines@.map_values(|l: String| l@);
        let mut entries: Vec<ConfigEntry> = Vec::new();
        let mut i: usize = 0;
        assert(lv.take(0) =~= Seq::<Seq<char>>::empty());
        assert(entries_view(entries@) =~= Seq::<EntryView>::empty());
        while i < lines.len()
            invariant
                i <= lines@.len(),
                lv == lines@.map_values(|l: String| l@),
                config_spec(lv.take(i as int)) == Ok::<Seq<EntryView>, Seq<char>>(
                    entries_view(entries@),
                ),
            decreases lines@.len() - i,
        {
            assert(lv.take(i + 1).drop_last() =~= lv.take(i as int));
            assert(lv.take(i + 1).last() == lines@[i as int]@);
            let ghost before = entries@;
            match ConfigLineKind::parse(lines[i].as_str()) {
                ConfigLineKind::Entry(e) => {
                    entries.push(e);
                    assert(entries_view(entries@) =~= entries_view(before).push(e@));
                },
                ConfigLineKind::ParseError(t) => {
                    let err = JanitorError::from_message(t.as_str());
                    proof {
                        let k = i + 1;
                        let rest = lv.skip(k);
                        assert forall|j: nat| j <= rest.len() implies config_spec(
                            #[trigger] lv.take((k + j) as int),
                        ) == Err::<Seq<EntryView>, Seq<char>>(t@) by {
                            lemma_error_sticks(lv, k as nat, j, t@);
                        }
                        assert(lv.take(k + rest.len()) =~= lv);
                    }
                    return Err(err);
                },
                _ => {},
            }
            i += 1;
        }
        assert(lv.take(lines@.len() as int) =~= lv);
        Ok(Config { entries })
    }

    /// The value of the entry called `name`, if any (see `lookup`).
    pub fn get(&self, name: &str) -> (r: Option<&String>)
        ensures
            match r {
                Some(v) => lookup(entries_view(self.entries@), name@) == Some(v@),
                None => lookup(entries_view(self.entries@), name@) is None,
            },
    {
        let ghost ev = entries_view(self.entries@);
        let mut i: usize = self.entries.len();
        assert(ev.take(i as int) =~= ev);
        while i > 0
            invariant
                i <= self.entries@.len(),
                ev == entries_view(self.entries@),
                lookup(ev, name@) == lookup(ev.take(i as int), name@),
            decreases i,
        {
            assert(ev.take(i as int).drop_last() =~= ev.take(i - 1));
            let e = &self.entries[i - 1];
            let n = String::from_str(name);
            if n == e.name {
                return Some(&e.value);
            }
            i -= 1;
        }
        assert(ev.take(0) =~= Seq::<EntryView>::empty());
        None
    }

    /// The value called `name` read as an unsigned integer.
    pub fn get_usize(&self, name: &str) -> (r: Result<usize, JanitorError>)
        ensures
            match lookup(entries_view(self.entries@), name@) {
                Some(v) => match parse_usize_spec(v) {
                    Some(n) => r == Ok::<usize, JanitorError>(n),
                    None => r matches Err(e) && e.kind@ == "invalid_number"@ && e.message@ == v,
                },
                None => r matches Err(e) && e.kind@ == "not_found"@ && e.message@ == name@,
            },
    {
        match self.get(name) {
            Some(v) => {
                let cs = chars_of(v.as_str());
                assert(cs@.subrange(0, cs@.len() as int) =~= cs@);
                match parse_usize(cs.as_slice(), 0, cs.len()) {
                    Some(n) => Ok(n),
                    None => Err(JanitorError::new("invalid_number", v.as_str())),
                }
            },
            None => Err(JanitorError::new("not_found", name)),
        }
    }

    /// The value called `name` read as `true` or `false`.
    pub fn get_bool(&self, name: &str) -> (r: Result<bool, JanitorError>)
        ensures
            match lookup(entries_view(self.entries@), name@) {
                Some(v) => match parse_bool_spec(v) {
                    Some(b) => r == Ok::<bool, JanitorError>(b),
                    None => r matches Err(e) && e.kind@ == "invalid_bool"@ && e.message@ == v,
                },
                None => r matches Err(e) && e.kind@ == "not_found"@ && e.message@ == name@,
            },
    {
        match self.get(name) {
            Some(v) => match parse_bool(v) {
                Some(b) => Ok(b),
                None => Err(JanitorError::new("invalid_bool", v.as_str())),
            },
            None => Err(JanitorError::new("not_found", name)),
        }
    }

    /// The value called `name`, as a path.
    pub fn get_path(&self, name: &str) -> (r: Result<String, JanitorError>)
        ensures
            match lookup(entries_view(self.entries@), name@) {
                Some(v) => r matches Ok(p) && p@ == v,
                None => r matches Err(e) && e.kind@ == "not_found"@ && e.message@ == name@,
            },
    {
        match self.get(name) {
            Some(v) => Ok(v.clone()),
            None => Err(JanitorError::new("not_found", name)),
        }
    }
}

/// Once a line fails, reading more lines keeps the same error.
proof fn lemma_error_sticks(lv: Seq<Seq<char>>, k: nat, j: nat, t: Seq<char>)
    requires
        k <= lv.len(),
        k + j <= lv.len(),
        config_spec(lv.take(k as int)) == Err::<Seq<EntryView>, Seq<char>>(t),
    ensures
        config_spec(lv.take((k + j) as int)) == Err::<Seq<EntryView>, Seq<char>>(t),
    decreases j,
{
    if j > 0 {
        lemma_error_sticks(lv, k, (j - 1) as nat, t);
        assert(lv.take((k + j) as int).drop_last() =~= lv.take(k + j - 1));
    }
}

} // verus!
