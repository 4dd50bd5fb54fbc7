//! The argument list that a client forwards, and thread counts.

use crate::numeric;
use crate::numeric::{decimal_string, parse_decimal};
use crate::text;
use crate::text::{find_char, join3, owned, same, skip, starts_with, starts_with_char, take};
use vstd::prelude::*;

verus! {

/// One switch of a command line and the value given to it.
#[derive(Debug)]
pub struct Switch {
    pub name: String,
    pub value: String,
}

impl Clone for Switch {
    fn clone(&self) -> (r: Self)
        ensures
            r.name@ == self.name@,
            r.value@ == self.value@,
    {
        Switch { name: owned(self.name.as_str()), value: owned(self.value.as_str()) }
    }
}

/// A command line, taken apart.
#[derive(Debug)]
pub struct ParsedArgs {
    pub julia_channel: Option<String>,
    pub switches: Vec<Switch>,
    pub program_file: Option<String>,
    pub program_args: Vec<String>,
}

// ---------------------------------------------------------------------
// Model
// ---------------------------------------------------------------------

/// A switch as a pair of texts: its name and its value.
pub type SwitchText = (Seq<char>, Seq<char>);

/// The texts of a list of switches.
pub open spec fn switch_views(v: Seq<Switch>) -> Seq<SwitchText> {
    Seq::new(v.len(), |i: int| (v[i].name@, v[i].value@))
}

/// What the arguments after the program name and the channel say.
pub struct Outcome {
    pub switches: Seq<SwitchText>,
    pub program_file: Option<Seq<char>>,
    pub program_args: Seq<Seq<char>>,
}

/// What one argument is on its own.
pub enum Shape {
    /// `--`: what follows is no switch.
    DoubleDash,
    /// The program file.
    Positional,
    /// A switch that has its value, or takes none.
    Complete { name: Seq<char>, value: Seq<char> },
    /// A switch whose value is the next argument.
    TakesNext { name: Seq<char> },
    /// A dash before a character outside ASCII: no switch can be cut off it.
    Unsplittable,
}

/// Switches that never take a value.
pub open spec fn takes_no_value(name: Seq<char>) -> bool {
    ||| name == "-i"@
    ||| name == "-v"@
    ||| name == "--version"@
    ||| name == "-h"@
    ||| name == "--help"@
    ||| name == "--restart"@
    ||| name == "--sync"@
    ||| name == "--sandbox"@
    ||| name == "-q"@
    ||| name == "--quiet"@
}

/// Switches whose value can only be given after an equals sign.
pub open spec fn value_optional(name: Seq<char>) -> bool {
    ||| name == "--session"@
    ||| name == "--status"@
    ||| name == "--project"@
    ||| name == "--code-coverage"@
    ||| name == "--track-allocation"@
    ||| name == "--debug-info"@
}

/// The long name of a one-letter switch, or the switch itself.
pub open spec fn long_name(short: Seq<char>) -> Seq<char> {
    if short == "-e"@ {
        "--eval"@
    } else if short == "-E"@ {
        "--print"@
    } else if short == "-L"@ {
        "--load"@
    } else if short == "-P"@ {
        "--project"@
    } else if short == "-t"@ {
        "--threads"@
    } else {
        short
    }
}

/// A value without the equals sign that may begin it.
pub open spec fn strip_equals(s: Seq<char>) -> Seq<char> {
    if s.len() > 0 && s[0] == '=' {
        s.skip(1)
    } else {
        s
    }
}

/// What a long switch is.
pub open spec fn long_shape(arg: Seq<char>) -> Shape {
    let eq = text::find(arg, '=');
    if eq < arg.len() {
        Shape::Complete { name: arg.take(eq), value: arg.skip(eq + 1) }
    } else if takes_no_value(arg) || value_optional(arg) {
        Shape::Complete { name: arg, value: Seq::empty() }
    } else {
        Shape::TakesNext { name: arg }
    }
}

/// What a one-letter switch is, with the value that may be glued to it.
pub open spec fn short_shape(arg: Seq<char>) -> Shape {
    if arg[1] > '\u{7f}' {
        Shape::Unsplittable
    } else {
        let name = long_name(arg.take(2));
        if takes_no_value(name) {
            Shape::Complete { name, value: Seq::empty() }
        } else if arg.len() > 2 {
            Shape::Complete { name, value: strip_equals(arg.skip(2)) }
        } else {
            Shape::TakesNext { name }
        }
    }
}

/// What `arg` is where switches are still read.
pub open spec fn shape(arg: Seq<char>) -> Shape {
    if arg == "--"@ {
        Shape::DoubleDash
    } else if "--"@.is_prefix_of(arg) {
        long_shape(arg)
    } else if arg.len() > 1 && arg[0] == '-' {
        short_shape(arg)
    } else {
        Shape::Positional
    }
}

/// The program and its arguments, once a `--` was seen.
pub open spec fn after_dashes(rest: Seq<Seq<char>>) -> Outcome
    decreases rest.len(),
{
    if rest.len() == 0 {
        Outcome { switches: Seq::empty(), program_file: None, program_args: Seq::empty() }
    } else if rest[0] == "--"@ {
        after_dashes(rest.skip(1))
    } else {
        Outcome {
            switches: Seq::empty(),
            program_file: Some(rest[0]),
            program_args: rest.skip(1),
        }
    }
}

/// `o` with `first` before its switches.
pub open spec fn preceded(first: Seq<SwitchText>, o: Option<Outcome>) -> Option<Outcome> {
    match o {
        Some(o) => Some(Outcome { switches: first + o.switches, ..o }),
        None => None,
    }
}

/// What `rest` says, read from the left; `None` where an argument that can
/// not be split is reached.
pub open spec fn scan(rest: Seq<Seq<char>>) -> Option<Outcome>
    decreases rest.len(),
{
    if rest.len() == 0 {
        Some(
            Outcome { switches: Seq::empty(), program_file: None, program_args: Seq::empty() },
        )
    } else {
        match shape(rest[0]) {
            Shape::DoubleDash => Some(after_dashes(rest.skip(1))),
            Shape::Positional => Some(
                Outcome {
                    switches: Seq::empty(),
                    program_file: Some(rest[0]),
                    program_args: rest.skip(1),
                },
            ),
            Shape::Complete { name, value } => preceded(seq![(name, value)], scan(rest.skip(1))),
            Shape::TakesNext { name } => if rest.len() > 1 {
                preceded(seq![(name, rest[1])], scan(rest.skip(2)))
            } else {
                preceded(seq![(name, Seq::empty())], scan(rest.skip(1)))
            },
            Shape::Unsplittable => None,
        }
    }
}

/// The arguments after the program name.
pub open spec fn operands(argv: Seq<Seq<char>>) -> Seq<Seq<char>> {
    if argv.len() > 0 {
        argv.skip(1)
    } else {
        argv
    }
}

/// Whether the first argument selects a channel (`+1.10`, `+release`).
pub open spec fn has_channel(argv: Seq<Seq<char>>) -> bool {
    argv.len() > 1 && argv[1].len() > 0 && argv[1][0] == '+'
}

/// The channel that `argv` selects.
pub open spec fn channel(argv: Seq<Seq<char>>) -> Option<Seq<char>> {
    if has_channel(argv) {
        Some(argv[1])
    } else {
        None
    }
}

/// What `argv` says besides the channel.
pub open spec fn outcome(argv: Seq<Seq<char>>) -> Option<Outcome> {
    if has_channel(argv) {
        scan(argv.skip(2))
    } else {
        scan(operands(argv))
    }
}

/// The value of the last switch called `name`.
pub open spec fn last_value(switches: Seq<SwitchText>, name: Seq<char>) -> Option<Seq<char>>
    decreases switches.len(),
{
    if switches.len() == 0 {
        None
    } else if switches.last().0 == name {
        Some(switches.last().1)
    } else {
        last_value(switches.drop_last(), name)
    }
}

/// Some switch is called `name`.
pub open spec fn named(switches: Seq<SwitchText>, name: Seq<char>) -> bool {
    exists|i: int| 0 <= i < switches.len() && (#[trigger] switches[i]).0 == name
}

// ---------------------------------------------------------------------
// Laws
// ---------------------------------------------------------------------

/// A switch has a value, possibly empty, exactly when it is present.
pub proof fn law_value_iff_present(switches: Seq<SwitchText>, name: Seq<char>)
    ensures
        last_value(switches, name) is Some <==> named(switches, name),
    decreases switches.len(),
{
    if switches.len() > 0 {
        let front = switches.drop_last();
        law_value_iff_present(front, name);
        if named(front, name) {
            let i = choose|i: int| 0 <= i < front.len() && (#[trigger] front[i]).0 == name;
            assert(switches[i].0 == name);
        }
        if named(switches, name) && switches.last().0 != name {
            let i = choose|i: int| 0 <= i < switches.len() && (#[trigger] switches[i]).0 == name;
            assert(front[i].0 == name);
        }
    }
}

/// The last occurrence of a switch wins: whatever came before, a switch given
/// once more has the value it was given last.
pub proof fn law_last_occurrence_wins(
    switches: Seq<SwitchText>,
    name: Seq<char>,
    value: Seq<char>,
)
    ensures
        last_value(switches.push((name, value)), name) == Some(value),
{
}

/// After `--` and the program file nothing is read as a switch: the program
/// gets every later argument as it stands.
pub proof fn law_double_dash_ends_switches(file: Seq<char>, rest: Seq<Seq<char>>)
    requires
        file != "--"@,
    ensures
        scan(seq!["--"@, file] + rest) == Some(
            Outcome {
                switches: Seq::empty(),
                program_file: Some(file),
                program_args: rest,
            },
        ),
{
    let argv = seq!["--"@, file] + rest;
    assert(argv.skip(1) =~= seq![file] + rest);
    assert((seq![file] + rest).skip(1) =~= rest);
}

// ---------------------------------------------------------------------
// Reading a command line
// ---------------------------------------------------------------------

/// What one argument is, with the texts cut out of it.
enum Piece {
    DoubleDash,
    Positional,
    Complete { name: String, value: String },
    TakesNext { name: String },
    Unsplittable,
}

/// The shape that `p` stands for.
spec fn piece_shape(p: Piece) -> Shape {
    match p {
        Piece::DoubleDash => Shape::DoubleDash,
        Piece::Positional => Shape::Positional,
        Piece::Complete { name, value } => Shape::Complete { name: name@, value: value@ },
        Piece::TakesNext { name } => Shape::TakesNext { name: name@ },
        Piece::Unsplittable => Shape::Unsplittable,
    }
}

fn is_no_value(name: &str) -> (r: bool)
    ensures
        r == takes_no_value(name@),
{
    same(name, "-i") || same(name, "-v") || same(name, "--version") || same(name, "-h") || same(
        name,
        "--help",
    ) || same(name, "--restart") || same(name, "--sync") || same(name, "--sandbox") || same(
        name,
        "-q",
    ) || same(name, "--quiet")
}

fn is_value_optional(name: &str) -> (r: bool)
    ensures
        r == value_optional(name@),
{
    same(name, "--session") || same(name, "--status") || same(name, "--project") || same(
        name,
        "--code-coverage",
    ) || same(name, "--track-allocation") || same(name, "--debug-info")
}

fn expand_short(short: &str) -> (r: &str)
    ensures
        r@ == long_name(short@),
{
    if same(short, "-e") {
        "--eval"
    } else if same(short, "-E") {
        "--print"
    } else if same(short, "-L") {
        "--load"
    } else if same(short, "-P") {
        "--project"
    } else if same(short, "-t") {
        "--threads"
    } else {
        short
    }
}

/// What `arg` is where switches are still read.
fn classify(arg: &str) -> (r: Piece)
    ensures
        piece_shape(r) == shape(arg@),
{
    if same(arg, "--") {
        return Piece::DoubleDash;
    }
    if starts_with(arg, "--") {
        return match find_char(arg, '=') {
            Some(eq) => Piece::Complete {
                name: owned(take(arg, eq)),
                value: owned(skip(arg, eq + 1)),
            },
            None => if is_no_value(arg) || is_value_optional(arg) {
                Piece::Complete { name: owned(arg), value: String::new() }
            } else {
                Piece::TakesNext { name: owned(arg) }
            },
        };
    }
    if arg.unicode_len() > 1 && starts_with_char(arg, '-') {
        if arg.get_char(1) > '\u{7f}' {
            return Piece::Unsplittable;
        }
        let name = expand_short(take(arg, 2));
        if is_no_value(name) {
            return Piece::Complete { name: owned(name), value: String::new() };
        }
        if arg.unicode_len() > 2 {
            let rest = skip(arg, 2);
            let value = if starts_with_char(rest, '=') {
                owned(skip(rest, 1))
            } else {
                owned(rest)
            };
            return Piece::Complete { name: owned(name), value };
        }
        return Piece::TakesNext { name: owned(name) };
    }
    Piece::Positional
}

/// Copies the arguments from index `from` on.
fn tail_of(args: &[String], from: usize) -> (r: Vec<String>)
    requires
        from <= args@.len(),
    ensures
        text::views(r@) == text::views(args@).skip(from as int),
{
    let mut out: Vec<String> = Vec::new();
    let mut i: usize = from;
    while i < args.len()
        invariant
            from <= i <= args@.len(),
            text::views(out@) =~= text::views(args@).subrange(from as int, i as int),
        decreases args@.len() - i,
    {
        let one = owned(args[i].as_str());
        proof {
            text::lemma_views_push(out@, one);
        }
        out.push(one);
        i = i + 1;
    }
    assert(text::views(out@) =~= text::views(args@).skip(from as int));
    out
}

/// What a finished scan says of the whole, from the switches before it.
proof fn lemma_preceded(a: Seq<SwitchText>, b: Seq<SwitchText>, o: Option<Outcome>)
    ensures
        preceded(a, preceded(b, o)) == preceded(a + b, o),
        preceded(Seq::empty(), o) == o,
{
    if let Some(x) = o {
        assert(a + (b + x.switches) =~= (a + b) + x.switches);
        assert(Seq::<SwitchText>::empty() + x.switches =~= x.switches);
    }
}

/// Takes a command line apart, whose first element is the program name;
/// `None` where an argument is a dash followed by a character outside ASCII,
/// which holds no one-letter switch.
pub fn try_parse(args: &[String]) -> (r: Option<ParsedArgs>)
    ensures
        r is Some <==> outcome(text::views(args@)) is Some,
        r matches Some(p) ==> p.says(text::views(args@)),
{
    let ghost argv = text::views(args@);
    let mut i: usize = if args.len() > 0 {
        1
    } else {
        0
    };
    let mut julia_channel: Option<String> = None;
    if i < args.len() && starts_with_char(args[i].as_str(), '+') {
        julia_channel = Some(owned(args[i].as_str()));
        i = i + 1;
    }
    let mut switches: Vec<Switch> = Vec::new();
    let mut program_file: Option<String> = None;
    let mut seen: bool = false;
    assert(switch_views(switches@) =~= Seq::empty());
    assert(argv.len() == 0 ==> argv.skip(0) =~= argv);
    proof {
        lemma_preceded(Seq::empty(), Seq::empty(), scan(argv.skip(i as int)));
    }
    while i < args.len() && program_file.is_none()
        invariant
            argv == text::views(args@),
            i <= args@.len(),
            text::opt_view(julia_channel) == channel(argv),
            program_file is None ==> outcome(argv) == preceded(
                switch_views(switches@),
                if seen {
                    Some(after_dashes(argv.skip(i as int)))
                } else {
                    scan(argv.skip(i as int))
                },
            ),
            program_file matches Some(f) ==> outcome(argv) == Some(
                (Outcome {
                    switches: switch_views(switches@),
                    program_file: Some(f@),
                    program_args: argv.skip(i as int),
                }),
            ),
        decreases args@.len() - i,
    {
        let ghost rest = argv.skip(i as int);
        let ghost before = switch_views(switches@);
        let arg = args[i].as_str();
        i = i + 1;
        assert(rest[0] == arg@);
        assert(rest.skip(1) =~= argv.skip(i as int));
        assert(before + Seq::<SwitchText>::empty() =~= before);
        if seen {
            if !same(arg, "--") {
                program_file = Some(owned(arg));
            }
        } else {
            match classify(arg) {
                Piece::DoubleDash => {
                    seen = true;
                },
                Piece::Positional => {
                    program_file = Some(owned(arg));
                },
                Piece::Complete { name, value } => {
                    let ghost one = (name@, value@);
                    switches.push(Switch { name, value });
                    proof {
                        assert(switch_views(switches@) =~= before + seq![one]);
                        lemma_preceded(before, seq![one], scan(argv.skip(i as int)));
                    }
                },
                Piece::TakesNext { name } => {
                    let mut value: String = String::new();
                    let ghost at = i as int;
                    if i < args.len() {
                        value = owned(args[i].as_str());
                        i = i + 1;
                        assert(rest[1] == value@);
                        assert(rest.skip(2) =~= argv.skip(i as int));
                    }
                    let ghost one = (name@, value@);
                    assert(value@ =~= if at < args@.len() {
                        rest[1]
                    } else {
                        Seq::empty()
                    });
                    switches.push(Switch { name, value });
                    proof {
                        assert(switch_views(switches@) =~= before + seq![one]);
                        lemma_preceded(before, seq![one], scan(argv.skip(i as int)));
                    }
                },
                Piece::Unsplittable => {
                    return None;
                },
            }
        }
    }
    let ghost sw = switch_views(switches@);
    assert(sw + Seq::<SwitchText>::empty() =~= sw);
    let program_args: Vec<String> = if program_file.is_some() {
        tail_of(args, i)
    } else {
        Vec::new()
    };
    proof {
        if program_file is None {
            assert(argv.skip(i as int).len() == 0);
            assert(text::views(program_args@) =~= Seq::empty());
        }
    }
    Some(ParsedArgs { julia_channel, switches, program_file, program_args })
}

/// Takes a command line apart, whose first element is the program name.
pub fn parse(args: &[String]) -> (r: ParsedArgs)
    requires
        outcome(text::views(args@)) is Some,
    ensures
        r.says(text::views(args@)),
{
    match try_parse(args) {
        Some(p) => p,
        None => ParsedArgs {
            julia_channel: None,
            switches: Vec::new(),
            program_file: None,
            program_args: Vec::new(),
        },
    }
}

impl ParsedArgs {
    /// This is what the command line `argv` says.
    pub open spec fn says(&self, argv: Seq<Seq<char>>) -> bool {
        &&& text::opt_view(self.julia_channel) == channel(argv)
        &&& outcome(argv) == Some(
            Outcome {
                switches: switch_views(self.switches@),
                program_file: text::opt_view(self.program_file),
                program_args: text::views(self.program_args@),
            },
        )
    }

    /// The value of the last switch called `name`.
    pub fn get_switch(&self, name: &str) -> (r: Option<&str>)
        ensures
            text::opt_str(r) == last_value(switch_views(self.switches@), name@),
    {
        let mut i: usize = self.switches.len();
        let ghost all = switch_views(self.switches@);
        assert(all.take(i as int) =~= all);
        while i > 0
            invariant
                i <= self.switches@.len(),
                all == switch_views(self.switches@),
                last_value(all, name@) == last_value(all.take(i as int), name@),
            decreases i,
        {
            i = i - 1;
            assert(all.take(i + 1).drop_last() =~= all.take(i as int));
            if same(self.switches[i].name.as_str(), name) {
                return Some(self.switches[i].value.as_str());
            }
        }
        None
    }

    /// Whether some switch is called `name`.
    pub fn has_switch(&self, name: &str) -> (r: bool)
        ensures
            r == named(switch_views(self.switches@), name@),
    {
        proof {
            law_value_iff_present(switch_views(self.switches@), name@);
        }
        self.get_switch(name).is_some()
    }

    /// The thread counts that `--threads` gives, or `THREADS_NONE`.
    pub fn thread_switch(&self) -> (r: Threads)
        ensures
            r@ == threads_of(
                match last_value(switch_views(self.switches@), "--threads"@) {
                    Some(v) => v,
                    None => Seq::empty(),
                },
            ),
    {
        match self.get_switch("--threads") {
            Some(v) => parse_threads(v),
            None => THREADS_NONE,
        }
    }
}

// ---------------------------------------------------------------------
// Thread counts
// ---------------------------------------------------------------------

/// The counts of the default pool and of the interactive pool. In each place
/// `THREADS_UNSET` leaves the choice open and `THREADS_AUTO` asks for `auto`.
pub type Threads = [u16; 2];

pub const THREADS_UNSET: u16 = 0;

pub const THREADS_AUTO: u16 = 0xffff;

pub const THREADS_NONE: Threads = [0, 0];

/// The count that one field of a `--threads` value gives.
pub open spec fn field_count(field: Seq<char>) -> u16 {
    if field.len() == 0 {
        THREADS_UNSET
    } else if field == "auto"@ {
        THREADS_AUTO
    } else {
        match numeric::parse_unsigned(field, 0xffff) {
            Some(n) => n as u16,
            None => THREADS_AUTO,
        }
    }
}

/// The counts that a `--threads` value gives: what stands before the first
/// comma, and what stands after it.
pub open spec fn threads_of(value: Seq<char>) -> Seq<u16> {
    let comma = text::find(value, ',');
    if comma < value.len() {
        seq![field_count(value.take(comma)), field_count(value.skip(comma + 1))]
    } else {
        seq![field_count(value), THREADS_UNSET]
    }
}

/// How one count is written.
pub open spec fn count_text(n: u16) -> Seq<char> {
    if n == THREADS_AUTO || n == THREADS_UNSET {
        "auto"@
    } else {
        numeric::decimal(n as nat)
    }
}

/// How a pair of counts is written; unset counts are not.
pub open spec fn threads_text(t: Seq<u16>) -> Option<Seq<char>> {
    if t[0] == THREADS_UNSET && t[1] == THREADS_UNSET {
        None
    } else if t[1] == THREADS_UNSET {
        Some(count_text(t[0]))
    } else {
        Some(count_text(t[0]) + seq![','] + count_text(t[1]))
    }
}

/// One number for a pair of counts.
pub fn pack_threads(spec: Threads) -> (r: u32)
    ensures
        r == spec[0] * 0x1_0000 + spec[1],
{
    let a: u32 = spec[0] as u32;
    let b: u32 = spec[1] as u32;
    assert((a << 16u32) | b == a * 0x1_0000 + b) by (bit_vector)
        requires
            a <= 0xffff,
            b <= 0xffff,
    ;
    (a << 16) | b
}

/// Different pairs of counts have different numbers.
pub proof fn law_pack_threads_injective(a: Threads, b: Threads)
    requires
        a[0] * 0x1_0000 + a[1] == b[0] * 0x1_0000 + b[1],
    ensures
        a@ == b@,
{
    assert(a@ =~= b@);
}

fn parse_thread_field(field: &str) -> (r: u16)
    ensures
        r == field_count(field@),
{
    if field.unicode_len() == 0 {
        return THREADS_UNSET;
    }
    if same(field, "auto") {
        return THREADS_AUTO;
    }
    match parse_decimal(field, 0xffff) {
        Some(n) => n as u16,
        None => THREADS_AUTO,
    }
}

/// Reads a `--threads` value: `N`, `auto`, `N,M` or `auto,M`. A field that is
/// neither a count nor empty stands for `auto`.
pub fn parse_threads(value: &str) -> (r: Threads)
    ensures
        r@ == threads_of(value@),
{
    match find_char(value, ',') {
        Some(i) => {
            let r = [
                parse_thread_field(take(value, i)),
                parse_thread_field(skip(value, i + 1)),
            ];
            assert(r@ =~= threads_of(value@));
            r
        },
        None => {
            let r = [parse_thread_field(value), THREADS_UNSET];
            assert(r@ =~= threads_of(value@));
            r
        },
    }
}

fn thread_field(val: u16) -> (r: String)
    ensures
        r@ == count_text(val),
{
    if val == THREADS_AUTO || val == THREADS_UNSET {
        owned("auto")
    } else {
        decimal_string(val as u64)
    }
}

/// Writes a pair of counts as a `--threads` value; `None` when both are unset.
pub fn render_threads(spec: Threads) -> (r: Option<String>)
    ensures
        text::opt_view(r) == threads_text(spec@),
{
    if spec[0] == THREADS_UNSET && spec[1] == THREADS_UNSET {
        return None;
    }
    let default = thread_field(spec[0]);
    if spec[1] == THREADS_UNSET {
        Some(default)
    } else {
        proof {
            reveal_strlit(",");
            assert(","@ =~= seq![',']);
        }
        let interactive = thread_field(spec[1]);
        Some(join3(default.as_str(), ",", interactive.as_str()))
    }
}

/// A rendered value holds no comma but the one between the two counts, and is
/// read back as the count that it renders.
proof fn lemma_count_text(n: u16)
    requires
        n != THREADS_UNSET,
    ensures
        field_count(count_text(n)) == n,
        forall|i: int| 0 <= i < count_text(n).len() ==> count_text(n)[i] != ',',
{
    reveal_strlit("auto");
    if n != THREADS_AUTO {
        numeric::lemma_decimal(n as nat);
        numeric::law_decimal_round_trip(n as nat, 0xffff);
        assert(count_text(n)[0] != 'a');
        assert("auto"@[0] == 'a');
    }
}

/// Reading a rendered value gives the counts back. An unset default pool
/// beside a set interactive pool is rendered as `auto`, so that pair is the one
/// that does not come back.
pub proof fn law_threads_round_trip(t: Seq<u16>)
    requires
        t.len() == 2,
        t[0] == THREADS_UNSET ==> t[1] == THREADS_UNSET,
    ensures
        threads_of(
            match threads_text(t) {
                Some(v) => v,
                None => Seq::empty(),
            },
        ) == t,
{
    match threads_text(t) {
        None => {
            assert(threads_of(Seq::empty()) =~= t);
        },
        Some(v) => {
            let first = count_text(t[0]);
            lemma_count_text(t[0]);
            if t[1] == THREADS_UNSET {
                text::lemma_find_is(v, ',', v.len() as int);
            } else {
                lemma_count_text(t[1]);
                assert forall|j: int| 0 <= j < first.len() implies v[j] != ',' by {
                    assert(v[j] == first[j]);
                }
                text::lemma_find_is(v, ',', first.len() as int);
                assert(v.take(first.len() as int) =~= first);
                assert(v.skip(first.len() as int + 1) =~= count_text(t[1]));
            }
            assert(threads_of(v) =~= t);
        },
    }
}

} // verus!
