use vstd::prelude::*;

use crate::text::{push_str, string_of};

verus! {

/// A boolean command-line flag. `name` is how the program refers to it.
pub struct Flag {
    pub name: String,
    pub short_form: String,
    pub long_form: String,
    pub description: String,
}

pub struct FlagView {
    pub name: Seq<char>,
    pub short_form: Seq<char>,
    pub long_form: Seq<char>,
    pub description: Seq<char>,
}

impl View for Flag {
    type V = FlagView;

    open spec fn view(&self) -> FlagView {
        FlagView {
            name: self.name@,
            short_form: self.short_form@,
            long_form: self.long_form@,
            description: self.description@,
        }
    }
}

/// Collects flags, then reads which of them the arguments name.
pub struct FlagParser {
    pub flags: Vec<Flag>,
    pub found_flags: Vec<String>,
}

/// The names of the flags found, and the help text.
pub struct ParseResults {
    pub help_message: String,
    pub found_flags: Vec<String>,
}

pub open spec fn flags_view(fs: Seq<Flag>) -> Seq<FlagView> {
    fs.map_values(|f: Flag| f@)
}

pub open spec fn names(v: Seq<String>) -> Set<Seq<char>> {
    Set::new(|n: Seq<char>| exists|i: int| 0 <= i < v.len() && (#[trigger] v[i])@ == n)
}

pub open spec fn flag_matches(f: FlagView, arg: Seq<char>) -> bool {
    arg == f.short_form || arg == f.long_form
}

/// The names of the flags that some argument names, by its short or long form.
pub open spec fn found_spec(flags: Seq<FlagView>, args: Seq<Seq<char>>) -> Set<Seq<char>> {
    Set::new(
        |n: Seq<char>|
            exists|i: int, j: int|
                0 <= i < flags.len() && 0 <= j < args.len() && (#[trigger] flags[i]).name == n
                    && flag_matches(flags[i], #[trigger] args[j]),
    )
}

/// Found by the arguments before `a`, or by argument `a` among the flags before `f`.
spec fn found_upto(flags: Seq<FlagView>, args: Seq<Seq<char>>, a: int, f: int) -> Set<Seq<char>> {
    Set::new(
        |n: Seq<char>|
            exists|i: int, j: int|
                0 <= i < flags.len() && 0 <= j < args.len() && (j < a || (j == a && i < f)) && (
                #[trigger] flags[i]).name == n && flag_matches(flags[i], #[trigger] args[j]),
    )
}

pub open spec fn spaces(n: nat) -> Seq<char> {
    Seq::new(n, |i: int| ' ')
}

/// The width the long form is padded to.
pub const LONG_FORM_WIDTH: usize = 25;

/// One line of help: `short,long` with the long form padded with spaces to
/// the width, then the description.
pub open spec fn help_line(f: FlagView) -> Seq<char> {
    let pad = if f.long_form.len() < LONG_FORM_WIDTH {
        (LONG_FORM_WIDTH - f.long_form.len()) as nat
    } else {
        0
    };
    f.short_form + seq![','] + f.long_form + spaces(pad) + f.description
}

/// The lines joined with newlines between them.
pub open spec fn joined(lines: Seq<Seq<char>>) -> Seq<char>
    decreases lines.len(),
{
    if lines.len() == 0 {
        Seq::empty()
    } else if lines.len() == 1 {
        lines[0]
    } else {
        joined(lines.drop_last()) + seq!['\n'] + lines.last()
    }
}

pub open spec fn help_spec(flags: Seq<FlagView>) -> Seq<char> {
    joined(flags.map_values(|f: FlagView| help_line(f)))
}

fn str_eq(a: &str, b: &String) -> (r: bool)
    ensures
        r == (a@ == b@),
{
    let a = String::from_str(a);
    a == *b
}

impl Flag {
    pub fn new(name: &str, short_form: &str, long_form: &str, description: &str) -> (r: Flag)
        ensures
            r@ == (FlagView {
                name: name@,
                short_form: short_form@,
                long_form: long_form@,
                description: description@,
            }),
    {
        Flag {
            name: String::from_str(name),
            short_form: String::from_str(short_form),
            long_form: String::from_str(long_form),
            description: String::from_str(description),
        }
    }

    /// Whether the argument is this flag's short or long form.
    pub fn matches(&self, other: &str) -> (r: bool)
        ensures
            r == flag_matches(self@, other@),
    {
        str_eq(other, &self.short_form) || str_eq(other, &self.long_form)
    }

    fn help_line(&self) -> (r: Vec<char>)
        ensures
            r@ == help_line(self@),
    {
        let mut out: Vec<char> = Vec::new();
        push_str(&mut out, self.short_form.as_str());
        out.push(',');
        push_str(&mut out, self.long_form.as_str());
        let n = self.long_form.as_str().unicode_len();
        let ghost before = out@;
        let mut k: usize = n;
        while k < LONG_FORM_WIDTH
            invariant
                n == self.long_form@.len(),
                n <= k <= LONG_FORM_WIDTH || n >= LONG_FORM_WIDTH && k == n,
                out@ == before + spaces((k - n) as nat),
            decreases LONG_FORM_WIDTH - k,
        {
            out.push(' ');
            k += 1;
            assert(out@ =~= before + spaces((k - n) as nat));
        }
        push_str(&mut out, self.description.as_str());
        assert(out@ =~= help_line(self@));
        out
    }
}

fn contains_name(v: &Vec<String>, name: &str) -> (r: bool)
    ensures
        r == names(v@).contains(name@),
{
    let mut i: usize = 0;
    while i < v.len()
        invariant
            i <= v@.len(),
            forall|k: int| 0 <= k < i ==> (#[trigger] v@[k])@ != name@,
        decreases v@.len() - i,
    {
        if str_eq(name, &v[i]) {
            assert(names(v@).contains(name@)) by {
                assert(v@[i as int]@ == name@);
            }
            return true;
        }
        i += 1;
    }
    false
}

impl FlagParser {
    pub fn new() -> (r: FlagParser)
        ensures
            r.flags@.len() == 0,
            r.found_flags@.len() == 0,
    {
        FlagParser { flags: Vec::new(), found_flags: Vec::new() }
    }

    /// Adds a flag after those already there.
    pub fn with_flag(self, name: &str, short_form: &str, long_form: &str, description: &str) -> (r:
        FlagParser)
        ensures
            flags_view(r.flags@) == flags_view(self.flags@).push(
                FlagView {
                    name: name@,
                    short_form: short_form@,
                    long_form: long_form@,
                    description: description@,
                },
            ),
            r.found_flags@ == self.found_flags@,
    {
        let mut p = self;
        let ghost before = p.flags@;
        p.flags.push(Flag::new(name, short_form, long_form, description));
        assert(flags_view(p.flags@) =~= flags_view(before).push(
            FlagView {
                name: name@,
                short_form: short_form@,
                long_form: long_form@,
                description: description@,
            },
        ));
        p
    }

    fn with_help_flag(self) -> (r: FlagParser)
        ensures
            flags_view(r.flags@) == flags_view(self.flags@).push(
                FlagView {
                    name: "help"@,
                    short_form: "-h"@,
                    long_form: "--help"@,
                    description: "Print this message and all of the available flags"@,
                },
            ),
            r.found_flags@ == self.found_flags@,
    {
        self.with_flag("help", "-h", "--help", "Print this message and all of the available flags")
    }

    /// One line per flag (see `help_line`), in the order they were added.
    pub fn help_message(&self) -> (r: String)
        ensures
            r@ == help_spec(flags_view(self.flags@)),
    {
        let ghost lines = flags_view(self.flags@).map_values(|f: FlagView| help_line(f));
        let mut out: Vec<char> = Vec::new();
        let mut i: usize = 0;
        while i < self.flags.len()
            invariant
                i <= self.flags@.len(),
                lines == flags_view(self.flags@).map_values(|f: FlagView| help_line(f)),
                out@ == joined(lines.take(i as int)),
            decreases self.flags@.len() - i,
        {
            let line = self.flags[i].help_line();
            assert(lines.take(i + 1).drop_last() =~= lines.take(i as int));
            assert(lines[i as int] == line@);
            if i > 0 {
                out.push('\n');
            }
            let ghost mid = out@;
            let mut j: usize = 0;
            while j < line.len()
                invariant
                    j <= line@.len(),
                    out@ == mid + line@.take(j as int),
                decreases line@.len() - j,
            {
                out.push(line[j]);
                j += 1;
                assert(out@ =~= mid + line@.take(j as int));
            }
            assert(line@.take(line@.len() as int) =~= line@);
            i += 1;
            assert(out@ =~= joined(lines.take(i as int)));
        }
        assert(lines.take(self.flags@.len() as int) =~= lines);
        string_of(out.as_slice())
    }

    /// Reads which flags the arguments name. The help flag is added after the
    /// arguments are read, so it shows in the help text only.
    pub fn parse_args(self, args: Vec<String>) -> (r: ParseResults)
        ensures
            names(r.found_flags@) == names(self.found_flags@) + found_spec(
                flags_view(self.flags@),
                args@.map_values(|a: String| a@),
            ),
            r.help_message@ == help_spec(
                flags_view(self.flags@).push(
                    FlagView {
                        name: "help"@,
                        short_form: "-h"@,
                        long_form: "--help"@,
                        description: "Print this message and all of the available flags"@,
                    },
                ),
            ),
    {
        let mut p = self;
        let ghost fv = flags_view(p.flags@);
        let ghost av = args@.map_values(|a: String| a@);
        let ghost start = names(p.found_flags@);
        let mut a: usize = 0;
        while a < args.len()
            invariant
                a <= args@.len(),
                fv == flags_view(p.flags@),
                av == args@.map_values(|a: String| a@),
                names(p.found_flags@) == start + found_upto(fv, av, a as int, 0),
            decreases args@.len() - a,
        {
            let mut f: usize = 0;
            while f < p.flags.len()
                invariant
                    a < args@.len(),
                    f <= p.flags@.len(),
                    fv == flags_view(p.flags@),
                    av == args@.map_values(|a: String| a@),
                    names(p.found_flags@) == start + found_upto(fv, av, a as int, f as int),
                decreases p.flags@.len() - f,
            {
                let ghost before = p.found_flags@;
                let hit = p.flags[f].matches(args[a].as_str());
                if hit && !contains_name(&p.found_flags, p.flags[f].name.as_str()) {
                    let n = p.flags[f].name.clone();
                    p.found_flags.push(n);
                    assert(names(p.found_flags@) =~= names(before).insert(fv[f as int].name)) by {
                        assert(p.found_flags@[before.len() as int]@ == fv[f as int].name);
                        assert forall|x: Seq<char>| names(before).contains(x) implies names(
                            p.found_flags@,
                        ).contains(x) by {
                            let k = choose|k: int| 0 <= k < before.len() && (#[trigger] before[k])@ == x;
                            assert(p.found_flags@[k] == before[k]);
                        }
                    }
                }
                proof {
                    let prev = found_upto(fv, av, a as int, f as int);
                    let next = found_upto(fv, av, a as int, f + 1);
                    assert forall|x: Seq<char>| next.contains(x) implies prev.contains(x) || (hit && x
                        == fv[f as int].name) by {
                        let (i, j) = choose|i: int, j: int|
                            0 <= i < fv.len() && 0 <= j < av.len() && (j < a || (j == a && i < f
                                + 1)) && (#[trigger] fv[i]).name == x && flag_matches(
                                fv[i],
                                #[trigger] av[j],
                            );
                        if !(j < a || (j == a && i < f)) {
                            assert(i == f && j == a);
                        }
                    }
                    if hit {
                        assert(next.contains(fv[f as int].name)) by {
                            assert(flag_matches(fv[f as int], av[a as int]));
                        }
                    }
                    assert(prev.subset_of(next));
                    assert(names(p.found_flags@) =~= start + next);
                }
                f += 1;
            }
            proof {
                assert(found_upto(fv, av, a as int, fv.len() as int) =~= found_upto(
                    fv,
                    av,
                    a + 1,
                    0,
                ));
            }
            a += 1;
        }
        assert(found_upto(fv, av, args@.len() as int, 0) =~= found_spec(fv, av));
        let p = p.with_help_flag();
        let help_message = p.help_message();
        ParseResults { help_message, found_flags: p.found_flags }
    }
}

impl ParseResults {
    /// Whether the arguments named the flag called `name`.
    pub fn flag_enabled(&self, name: &str) -> (r: bool)
        ensures
            r == names(self.found_flags@).contains(name@),
    {
        contains_name(&self.found_flags, name)
    }

    pub fn help_message(&self) -> (r: String)
        ensures
            r@ == self.help_message@,
    {
        self.help_message.clone()
    }
}

} // verus!
