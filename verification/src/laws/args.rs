//! What a command line means.

use crate::args;
use crate::args::{Outcome, ParsedArgs, SwitchText};
use crate::numeric;
use crate::text;
use vstd::prelude::*;

verus! {

// ---------------------------------------------------------------------
// One argument after the other
// ---------------------------------------------------------------------

/// The argument begins with a dash.
pub open spec fn dashed(arg: Seq<char>) -> bool {
    arg.len() > 0 && arg[0] == '-'
}

/// Switches that never take the argument behind them: those without a value,
/// and those whose value only an equals sign gives.
pub open spec fn stands_alone(sw: Seq<char>) -> bool {
    ||| sw == "-i"@
    ||| sw == "-v"@
    ||| sw == "--version"@
    ||| sw == "-h"@
    ||| sw == "--help"@
    ||| sw == "--restart"@
    ||| sw == "--sync"@
    ||| sw == "--sandbox"@
    ||| sw == "-q"@
    ||| sw == "--quiet"@
    ||| sw == "--session"@
    ||| sw == "--status"@
    ||| sw == "--project"@
    ||| sw == "--code-coverage"@
    ||| sw == "--track-allocation"@
    ||| sw == "--debug-info"@
}

/// One-letter switches that stand for a long one.
pub open spec fn stands_for(short: Seq<char>, long: Seq<char>) -> bool {
    ||| short == "-e"@ && long == "--eval"@
    ||| short == "-E"@ && long == "--print"@
    ||| short == "-L"@ && long == "--load"@
    ||| short == "-P"@ && long == "--project"@
    ||| short == "-t"@ && long == "--threads"@
}

proof fn lemma_literals()
    ensures
        "--"@ == seq!['-', '-'],
        "-i"@ == seq!['-', 'i'],
        "-v"@ == seq!['-', 'v'],
        "-h"@ == seq!['-', 'h'],
        "-q"@ == seq!['-', 'q'],
        "-e"@ == seq!['-', 'e'],
        "-E"@ == seq!['-', 'E'],
        "-L"@ == seq!['-', 'L'],
        "-P"@ == seq!['-', 'P'],
        "-t"@ == seq!['-', 't'],
{
    reveal_strlit("--");
    reveal_strlit("-i");
    reveal_strlit("-v");
    reveal_strlit("-h");
    reveal_strlit("-q");
    reveal_strlit("-e");
    reveal_strlit("-E");
    reveal_strlit("-L");
    reveal_strlit("-P");
    reveal_strlit("-t");
    assert("--"@ =~= seq!['-', '-']);
    assert("-i"@ =~= seq!['-', 'i']);
    assert("-v"@ =~= seq!['-', 'v']);
    assert("-h"@ =~= seq!['-', 'h']);
    assert("-q"@ =~= seq!['-', 'q']);
    assert("-e"@ =~= seq!['-', 'e']);
    assert("-E"@ =~= seq!['-', 'E']);
    assert("-L"@ =~= seq!['-', 'L']);
    assert("-P"@ =~= seq!['-', 'P']);
    assert("-t"@ =~= seq!['-', 't']);
}

proof fn lemma_long_literals()
    ensures
        forall|i: int| 0 <= i < 9 ==> "--version"@[i] != '=',
        forall|i: int| 0 <= i < 6 ==> "--help"@[i] != '=',
        forall|i: int| 0 <= i < 9 ==> "--restart"@[i] != '=',
        forall|i: int| 0 <= i < 6 ==> "--sync"@[i] != '=',
        forall|i: int| 0 <= i < 9 ==> "--sandbox"@[i] != '=',
        forall|i: int| 0 <= i < 7 ==> "--quiet"@[i] != '=',
        forall|i: int| 0 <= i < 9 ==> "--session"@[i] != '=',
        forall|i: int| 0 <= i < 8 ==> "--status"@[i] != '=',
        forall|i: int| 0 <= i < 9 ==> "--project"@[i] != '=',
        forall|i: int| 0 <= i < 15 ==> "--code-coverage"@[i] != '=',
        forall|i: int| 0 <= i < 18 ==> "--track-allocation"@[i] != '=',
        forall|i: int| 0 <= i < 12 ==> "--debug-info"@[i] != '=',
        "--version"@.len() == 9,
        "--help"@.len() == 6,
        "--restart"@.len() == 9,
        "--sync"@.len() == 6,
        "--sandbox"@.len() == 9,
        "--quiet"@.len() == 7,
        "--session"@.len() == 9,
        "--status"@.len() == 8,
        "--project"@.len() == 9,
        "--code-coverage"@.len() == 15,
        "--track-allocation"@.len() == 18,
        "--debug-info"@.len() == 12,
        forall|s: Seq<char>|
            stands_alone(s) && s.len() > 2 ==> s[0] == '-' && s[1] == '-',
{
    lemma_literals();
    reveal_strlit("--version");
    reveal_strlit("--help");
    reveal_strlit("--restart");
    reveal_strlit("--sync");
    reveal_strlit("--sandbox");
    reveal_strlit("--quiet");
    reveal_strlit("--session");
    reveal_strlit("--status");
    reveal_strlit("--project");
    reveal_strlit("--code-coverage");
    reveal_strlit("--track-allocation");
    reveal_strlit("--debug-info");
}

proof fn lemma_one(a: Seq<char>, rest: Seq<Seq<char>>)
    ensures
        (seq![a] + rest)[0] == a,
        (seq![a] + rest).skip(1) == rest,
{
    assert((seq![a] + rest).skip(1) =~= rest);
}

/// A switch that stands alone has no value, and what follows it is read as if
/// it were not there: a program file stays one.
pub proof fn law_lone_switch(sw: Seq<char>, rest: Seq<Seq<char>>, o: Outcome)
    requires
        stands_alone(sw),
        args::scan(rest) == Some(o),
    ensures
        args::scan(seq![sw] + rest) == Some(
            Outcome { switches: seq![(sw, Seq::<char>::empty())] + o.switches, ..o },
        ),
{
    lemma_literals();
    lemma_long_literals();
    lemma_one(sw, rest);
    if sw.len() > 2 {
        text::lemma_find_is(sw, '=', sw.len() as int);
        assert("--"@.is_prefix_of(sw));
    } else {
        assert(sw.take(2) =~= sw);
        assert(!"--"@.is_prefix_of(sw));
    }
}

/// What follows the first equals sign of a long switch is its value.
pub proof fn law_equals_gives_the_value(
    name: Seq<char>,
    value: Seq<char>,
    rest: Seq<Seq<char>>,
    o: Outcome,
)
    requires
        name.len() >= 2 && name[0] == '-' && name[1] == '-',
        !name.contains('='),
        args::scan(rest) == Some(o),
    ensures
        args::scan(seq![name + seq!['='] + value] + rest) == Some(
            Outcome { switches: seq![(name, value)] + o.switches, ..o },
        ),
{
    let arg = name + seq!['='] + value;
    lemma_literals();
    lemma_one(arg, rest);
    assert(arg[0] == '-' && arg[1] == '-');
    assert("--"@.is_prefix_of(arg));
    assert forall|j: int| 0 <= j < name.len() implies arg[j] != '=' by {
        assert(arg[j] == name[j]);
        assert(name.contains(name[j]));
    }
    text::lemma_find_is(arg, '=', name.len() as int);
    assert(arg.take(name.len() as int) =~= name);
    assert(arg.skip(name.len() as int + 1) =~= value);
}

/// Any other long switch has the next argument for its value, and none where
/// it is the last one.
pub proof fn law_other_switches_take_the_next(
    name: Seq<char>,
    value: Seq<char>,
    rest: Seq<Seq<char>>,
    o: Outcome,
)
    requires
        name.len() > 2 && name[0] == '-' && name[1] == '-',
        !name.contains('='),
        !stands_alone(name),
        args::scan(rest) == Some(o),
    ensures
        args::scan(seq![name, value] + rest) == Some(
            Outcome { switches: seq![(name, value)] + o.switches, ..o },
        ),
        args::scan(seq![name]) == Some(
            Outcome {
                switches: seq![(name, Seq::<char>::empty())],
                program_file: None,
                program_args: Seq::empty(),
            },
        ),
{
    lemma_literals();
    assert("--"@.is_prefix_of(name));
    assert forall|j: int| 0 <= j < name.len() implies name[j] != '=' by {
        assert(name.contains(name[j]));
    }
    text::lemma_find_is(name, '=', name.len() as int);
    let two = seq![name, value] + rest;
    assert(two.skip(2) =~= rest);
    assert(seq![name].skip(1) =~= Seq::empty());
    reveal_with_fuel(args::scan, 2);
    assert(seq![(name, Seq::<char>::empty())] + Seq::<SwitchText>::empty() =~= seq![
        (name, Seq::<char>::empty()),
    ]);
}

/// A one-letter switch is the long one that it stands for: with the value
/// behind it, with a value glued to it, or with one after an equals sign.
pub proof fn law_short_switches(
    short: Seq<char>,
    long: Seq<char>,
    value: Seq<char>,
    rest: Seq<Seq<char>>,
    o: Outcome,
)
    requires
        stands_for(short, long),
        args::scan(rest) == Some(o),
    ensures
        args::scan(seq![short, value] + rest) == Some(
            Outcome { switches: seq![(long, value)] + o.switches, ..o },
        ),
        value.len() > 0 && value[0] != '=' ==> args::scan(seq![short + value] + rest) == Some(
            Outcome { switches: seq![(long, value)] + o.switches, ..o },
        ),
        args::scan(seq![short + seq!['='] + value] + rest) == Some(
            Outcome { switches: seq![(long, value)] + o.switches, ..o },
        ),
{
    lemma_literals();
    lemma_long_literals();
    reveal_strlit("--eval");
    reveal_strlit("--print");
    reveal_strlit("--load");
    reveal_strlit("--threads");
    assert(!args::takes_no_value(long)) by {
        assert("--eval"@.len() == 6 && "--eval"@[2] == 'e');
        assert("--print"@.len() == 7 && "--print"@[2] == 'p');
        assert("--load"@.len() == 6 && "--load"@[2] == 'l');
        assert("--threads"@.len() == 9 && "--threads"@[2] == 't');
        assert("--project"@[2] == 'p') by {
            reveal_strlit("--project");
        }
        reveal_strlit("--version");
        reveal_strlit("--help");
        reveal_strlit("--restart");
        reveal_strlit("--sync");
        reveal_strlit("--sandbox");
        reveal_strlit("--quiet");
    }
    let two = seq![short, value] + rest;
    assert(two.skip(2) =~= rest);
    assert(short.take(2) =~= short);
    assert(!"--"@.is_prefix_of(short));
    let glued = short + value;
    lemma_one(glued, rest);
    if value.len() > 0 {
        assert(glued[0] == '-' && glued[1] == short[1]);
        assert(glued.take(2) =~= short);
        assert(glued.skip(2) =~= value);
        assert(!"--"@.is_prefix_of(glued)) by {
            assert("--"@[1] == '-');
        }
    }
    let equal = short + seq!['='] + value;
    lemma_one(equal, rest);
    assert(equal[0] == '-' && equal[1] == short[1]);
    assert(equal.take(2) =~= short);
    assert(equal.skip(2) =~= seq!['='] + value);
    assert((seq!['='] + value).skip(1) =~= value);
    assert(!"--"@.is_prefix_of(equal)) by {
        assert("--"@[1] == '-');
    }
}

/// Any other one-letter switch goes by its own name, and has a value in the
/// same ways.
pub proof fn law_other_short_switches(
    c: char,
    value: Seq<char>,
    rest: Seq<Seq<char>>,
    o: Outcome,
)
    requires
        c <= '\u{7f}' && c != '-',
        c != 'i' && c != 'v' && c != 'h' && c != 'q',
        c != 'e' && c != 'E' && c != 'L' && c != 'P' && c != 't',
        args::scan(rest) == Some(o),
    ensures
        args::scan(seq![seq!['-', c], value] + rest) == Some(
            Outcome { switches: seq![(seq!['-', c], value)] + o.switches, ..o },
        ),
        value.len() > 0 && value[0] != '=' ==> args::scan(seq![seq!['-', c] + value] + rest) == Some(
            Outcome { switches: seq![(seq!['-', c], value)] + o.switches, ..o },
        ),
{
    lemma_literals();
    lemma_long_literals();
    let short = seq!['-', c];
    assert(short.len() == 2 && short[0] == '-' && short[1] == c);
    assert(!args::takes_no_value(short)) by {
        assert("-i"@[1] == 'i' && "-v"@[1] == 'v' && "-h"@[1] == 'h' && "-q"@[1] == 'q');
    }
    assert(args::long_name(short) == short) by {
        assert("-e"@[1] == 'e' && "-E"@[1] == 'E' && "-L"@[1] == 'L' && "-P"@[1] == 'P');
        assert("-t"@[1] == 't');
    }
    let two = seq![short, value] + rest;
    assert(two.skip(2) =~= rest);
    assert(short.take(2) =~= short);
    assert("--"@[1] == '-');
    assert(!"--"@.is_prefix_of(short));
    let glued = short + value;
    lemma_one(glued, rest);
    if value.len() > 0 {
        assert(glued[0] == '-' && glued[1] == c);
        assert(glued.take(2) =~= short);
        assert(glued.skip(2) =~= value);
        assert(!"--"@.is_prefix_of(glued));
    }
}

/// The first argument that is no switch is the program file, and all that
/// follows is for the program.
pub proof fn law_file_ends_the_switches(file: Seq<char>, rest: Seq<Seq<char>>)
    requires
        !dashed(file) || file.len() == 1,
    ensures
        args::scan(seq![file] + rest) == Some(
            Outcome { switches: Seq::empty(), program_file: Some(file), program_args: rest },
        ),
        args::scan(Seq::empty()) == Some(
            Outcome { switches: Seq::empty(), program_file: None, program_args: Seq::empty() },
        ),
{
    lemma_literals();
    lemma_one(file, rest);
    assert(!"--"@.is_prefix_of(file)) by {
        if "--"@.is_prefix_of(file) {
            assert(file[0] == "--"@[0]);
        }
    }
}

/// What was parsed is what the arguments after the program's name say.
pub proof fn law_parsed_is_read(p: ParsedArgs, program: Seq<char>, rest: Seq<Seq<char>>, o: Outcome)
    requires
        args::scan(rest) == Some(o),
        p.says(seq![program] + rest),
        rest.len() > 0 && rest[0].len() > 0 ==> rest[0][0] != '+',
    ensures
        p.julia_channel is None,
        args::switch_views(p.switches@) == o.switches,
        text::opt_view(p.program_file) == o.program_file,
        text::views(p.program_args@) == o.program_args,
{
    let argv = seq![program] + rest;
    assert(argv.skip(1) =~= rest);
    if rest.len() > 0 {
        assert(argv[1] == rest[0]);
    }
}

/// An argument with a plus sign that comes first is the channel, and the rest
/// is read as without it.
pub proof fn law_channel_comes_first(
    p: ParsedArgs,
    program: Seq<char>,
    name: Seq<char>,
    rest: Seq<Seq<char>>,
    o: Outcome,
)
    requires
        args::scan(rest) == Some(o),
        p.says(seq![program, seq!['+'] + name] + rest),
    ensures
        text::opt_view(p.julia_channel) == Some(seq!['+'] + name),
        args::switch_views(p.switches@) == o.switches,
        text::opt_view(p.program_file) == o.program_file,
        text::views(p.program_args@) == o.program_args,
{
    let argv = seq![program, seq!['+'] + name] + rest;
    assert(argv[1] == seq!['+'] + name);
    assert(argv[1][0] == '+');
    assert(argv.skip(2) =~= rest);
}

/// `julia --project script.jl ...`: a switch that stands alone leaves the
/// script to be run, with its arguments.
pub proof fn law_script_behind_a_lone_switch_is_run(
    p: ParsedArgs,
    program: Seq<char>,
    sw: Seq<char>,
    file: Seq<char>,
    rest: Seq<Seq<char>>,
)
    requires
        stands_alone(sw),
        !dashed(file),
        p.says(seq![program, sw, file] + rest),
    ensures
        args::switch_views(p.switches@) == seq![(sw, Seq::<char>::empty())],
        text::opt_view(p.program_file) == Some(file),
        text::views(p.program_args@) == rest,
{
    law_file_ends_the_switches(file, rest);
    let o = args::scan(seq![file] + rest)->0;
    law_lone_switch(sw, seq![file] + rest, o);
    let all = seq![sw] + (seq![file] + rest);
    assert(seq![program, sw, file] + rest =~= seq![program] + all);
    lemma_literals();
    lemma_long_literals();
    assert(all[0] == sw);
    law_parsed_is_read(p, program, all, args::scan(all)->0);
    assert(seq![(sw, Seq::<char>::empty())] + Seq::<SwitchText>::empty() =~= seq![
        (sw, Seq::<char>::empty()),
    ]);
}

// ---------------------------------------------------------------------
// Values
// ---------------------------------------------------------------------

/// The value of a switch is that of its last occurrence, and there is none
/// where the switch does not occur.
pub proof fn law_last_switch_counts(s: Seq<SwitchText>, name: Seq<char>, i: int)
    ensures
        0 <= i < s.len() && s[i].0 == name && (forall|j: int|
            i < j < s.len() ==> (#[trigger] s[j]).0 != name) ==> args::last_value(s, name) == Some(
            s[i].1,
        ),
        (forall|j: int| 0 <= j < s.len() ==> (#[trigger] s[j]).0 != name) ==> args::last_value(
            s,
            name,
        ) is None,
    decreases s.len(),
{
    if s.len() > 0 {
        let front = s.drop_last();
        law_last_switch_counts(front, name, i);
        assert forall|j: int| 0 <= j < front.len() implies front[j] == #[trigger] s[j] by {}
        assert(s[s.len() - 1] == s.last());
        if 0 <= i < s.len() - 1 && s[i].0 == name && (forall|j: int|
            i < j < s.len() ==> (#[trigger] s[j]).0 != name) {
            assert forall|j: int| i < j < front.len() implies (#[trigger] front[j]).0 != name by {
                assert(s[j].0 != name);
            }
        }
        if forall|j: int| 0 <= j < s.len() ==> (#[trigger] s[j]).0 != name {
            assert forall|j: int| 0 <= j < front.len() implies (#[trigger] front[j]).0 != name by {
                assert(s[j].0 != name);
            }
        }
    }
}

/// A count of threads is the number that is written: one count for the default
/// pool, two for both; `auto` leaves it open, and so does what is no number.
pub proof fn law_thread_counts(n: u16, m: u16)
    ensures
        args::threads_of(numeric::decimal(n as nat)) == seq![n, 0u16],
        args::threads_of(numeric::decimal(n as nat) + seq![','] + numeric::decimal(m as nat))
            == seq![n, m],
        args::threads_of("auto"@) == seq![0xffffu16, 0u16],
        args::threads_of("auto"@ + seq![','] + numeric::decimal(m as nat)) == seq![0xffffu16, m],
        args::threads_of(Seq::empty()) == seq![0u16, 0u16],
{
    reveal_strlit("auto");
    let a = numeric::decimal(n as nat);
    let b = numeric::decimal(m as nat);
    numeric::lemma_decimal(n as nat);
    numeric::lemma_decimal(m as nat);
    numeric::law_decimal_round_trip(n as nat, 0xffff);
    numeric::law_decimal_round_trip(m as nat, 0xffff);
    assert(a[0] != 'a' && b[0] != 'a');
    assert("auto"@[0] == 'a');
    text::lemma_find_is(a, ',', a.len() as int);
    assert(args::threads_of(a) =~= seq![n, 0u16]);
    let ab = a + seq![','] + b;
    assert forall|j: int| 0 <= j < a.len() implies ab[j] != ',' by {
        assert(ab[j] == a[j]);
    }
    text::lemma_find_is(ab, ',', a.len() as int);
    assert(ab.take(a.len() as int) =~= a);
    assert(ab.skip(a.len() as int + 1) =~= b);
    assert(args::threads_of(ab) =~= seq![n, m]);
    let auto = "auto"@;
    text::lemma_find_is(auto, ',', 4);
    assert(args::threads_of(auto) =~= seq![0xffffu16, 0u16]);
    let autob = auto + seq![','] + b;
    assert forall|j: int| 0 <= j < 4 implies autob[j] != ',' by {
        assert(autob[j] == auto[j]);
    }
    text::lemma_find_is(autob, ',', 4);
    assert(autob.take(4) =~= auto);
    assert(autob.skip(5) =~= b);
    assert(args::threads_of(autob) =~= seq![0xffffu16, m]);
    assert(args::threads_of(Seq::empty()) =~= seq![0u16, 0u16]);
}

/// What a worker is started with for its counts.
pub proof fn law_counts_are_written(n: u16, m: u16)
    requires
        0 < n < 0xffff,
        0 < m < 0xffff,
    ensures
        args::threads_text(seq![n, 0u16]) == Some(numeric::decimal(n as nat)),
        args::threads_text(seq![n, m]) == Some(
            numeric::decimal(n as nat) + seq![','] + numeric::decimal(m as nat),
        ),
        args::threads_text(seq![0xffffu16, 0u16]) == Some("auto"@),
        args::threads_text(seq![0xffffu16, m]) == Some(
            "auto"@ + seq![','] + numeric::decimal(m as nat),
        ),
        args::threads_text(seq![0u16, 0u16]) is None,
{
}

/// A number is written digit by digit, the last digit last.
pub proof fn law_numbers_are_written_in_tens(n: nat)
    ensures
        n < 10 ==> numeric::decimal(n) == seq![('0' as u32 + n) as char],
        n >= 10 ==> numeric::decimal(n) == numeric::decimal(n / 10) + numeric::decimal(n % 10),
{
    reveal_with_fuel(numeric::in_base, 2);
    if n >= 10 {
        assert(numeric::decimal(n) =~= numeric::decimal(n / 10) + numeric::decimal(n % 10));
    } else {
        assert(numeric::decimal(n) =~= seq![('0' as u32 + n) as char]);
    }
}

/// Two dashes end the switches: the next argument that is not two dashes is
/// the program, whatever it begins with.
pub proof fn law_dashes_end_the_switches(file: Seq<char>, rest: Seq<Seq<char>>)
    requires
        file != "--"@,
    ensures
        args::scan(seq!["--"@, file] + rest) == Some(
            Outcome { switches: Seq::empty(), program_file: Some(file), program_args: rest },
        ),
        args::scan(seq!["--"@, "--"@, file] + rest) == Some(
            Outcome { switches: Seq::empty(), program_file: Some(file), program_args: rest },
        ),
        args::scan(seq!["--"@]) == Some(
            Outcome {
                switches: Seq::empty(),
                program_file: None,
                program_args: Seq::empty(),
            },
        ),
{
    args::law_double_dash_ends_switches(file, rest);
    let one = seq![file] + rest;
    assert(one.skip(1) =~= rest);
    let two = seq!["--"@] + one;
    assert(two.skip(1) =~= one);
    let three = seq!["--"@, "--"@, file] + rest;
    assert(three.skip(1) =~= two);
    assert(args::after_dashes(two) == args::after_dashes(one));
    assert(seq!["--"@].skip(1) =~= Seq::<Seq<char>>::empty());
}

/// A dash before a character outside ASCII cannot be read.
pub proof fn law_strange_switches_are_refused(c: char, more: Seq<char>, rest: Seq<Seq<char>>)
    requires
        c > '\u{7f}',
    ensures
        args::scan(seq![seq!['-', c] + more] + rest) is None,
{
    reveal_strlit("--");
    let arg = seq!['-', c] + more;
    assert(arg[1] == c && arg[0] == '-');
    assert("--"@[1] == '-');
    if "--"@.is_prefix_of(arg) {
        assert(arg.subrange(0, 2)[1] == '-');
    }
    assert((seq![arg] + rest)[0] == arg);
}

/// A count of threads that is no number leaves the number open, and one that
/// is left out is written as open.
pub proof fn law_unreadable_counts_are_open(field: Seq<char>, m: u16)
    requires
        field.len() > 0,
        !field.contains(','),
        exists|i: int| 1 <= i < field.len() && !('0' <= (#[trigger] field[i]) <= '9'),
        0 < m < 0xffff,
    ensures
        args::threads_of(field) == seq![0xffffu16, 0u16],
        args::threads_text(seq![0u16, m]) == Some("auto"@ + seq![','] + numeric::decimal(m as nat)),
{
    assert forall|j: int| 0 <= j < field.len() implies field[j] != ',' by {
        assert(field[j] == ',' ==> field.contains(field[j]));
    }
    text::lemma_find_is(field, ',', field.len() as int);
    let i = choose|i: int| 1 <= i < field.len() && !('0' <= (#[trigger] field[i]) <= '9');
    let digits = numeric::unsigned_digits(field);
    if field[0] == '+' {
        assert(digits[i - 1] == field[i]);
        assert(!numeric::is_digit(digits[i - 1]));
    } else {
        assert(!numeric::is_digit(digits[i]));
    }
    assert(args::threads_of(field) =~= seq![0xffffu16, 0u16]);
}

} // verus!
