//! When memory counts as short, and how often that is looked at.

use crate::config::MemText;
use crate::pressure;
use crate::pressure::{MemReading, PressureMonitor, Source};
use crate::text;
use crate::numeric;
use crate::worker::Worker;
use vstd::prelude::*;

verus! {

/// Nothing is watched where that is switched off. Else stalls are watched
/// where the system tells of them, and free memory where it tells of that.
pub proof fn law_what_is_watched(psi_readable: bool, mem_readable: bool)
    ensures
        pressure::source_for(false, psi_readable, mem_readable) == Source::Nowhere,
        pressure::source_for(true, true, mem_readable) == Source::Psi,
        pressure::source_for(true, false, true) == Source::MemFree,
        pressure::source_for(true, false, false) == Source::Nowhere,
{
}

/// Where stalls are watched, memory is short exactly while they reach their
/// threshold; a reading that fails changes nothing.
pub proof fn law_stalls_decide(
    before: PressureMonitor,
    after: PressureMonitor,
    reached: bool,
    mem: Option<MemReading>,
)
    requires
        before.looks_at() == Source::Psi,
        after.has_polled(&before, Some(reached), mem) || (after.has_polled(&before, None, mem)
            && reached == before.pressed()),
    ensures
        after.pressed() == reached,
        before.alarmed_by(Some(reached), mem) == reached,
        before.alarmed_by(None, mem) == before.pressed(),
{
}

/// Where free memory is watched and its thresholds are numbers of bytes,
/// memory becomes short below the low one and stays so up to the high one.
pub proof fn law_free_bytes_decide(
    before: PressureMonitor,
    after: PressureMonitor,
    psi: Option<bool>,
    m: MemReading,
    low: nat,
    high: nat,
)
    requires
        before.looks_at() == Source::MemFree,
        before.low() == MemText::Bytes(low),
        before.high() == MemText::Bytes(high),
        after.has_polled(&before, psi, Some(m)),
    ensures
        !before.pressed() ==> (after.pressed() <==> m.avail < low),
        before.pressed() ==> (after.pressed() <==> m.avail < high),
        before.alarmed_by(psi, Some(m)) == after.pressed(),
{
}

/// The same where the thresholds are parts of all memory.
pub proof fn law_free_parts_decide(
    before: PressureMonitor,
    after: PressureMonitor,
    psi: Option<bool>,
    m: MemReading,
    low: Seq<char>,
    high: Seq<char>,
)
    requires
        before.looks_at() == Source::MemFree,
        before.low() == MemText::Percent(low),
        before.high() == MemText::Percent(high),
        after.has_polled(&before, psi, Some(m)),
    ensures
        !before.pressed() ==> (after.pressed() <==> m.below_low_fraction),
        before.pressed() ==> (after.pressed() <==> m.below_high_fraction),
        before.alarmed_by(psi, Some(m)) == after.pressed(),
{
}

/// Where nothing is watched there is never an alarm.
pub proof fn law_no_alarm_from_nowhere(
    before: PressureMonitor,
    psi: Option<bool>,
    mem: Option<MemReading>,
)
    requires
        before.looks_at() == Source::Nowhere,
    ensures
        !before.alarmed_by(psi, mem),
{
}

/// Watching changes neither what is watched nor its thresholds.
pub proof fn law_watching_keeps_the_thresholds(
    before: PressureMonitor,
    after: PressureMonitor,
    psi: Option<bool>,
    mem: Option<MemReading>,
)
    requires
        after.has_polled(&before, psi, mem),
    ensures
        after.looks_at() == before.looks_at(),
        after.low() == before.low(),
        after.high() == before.high(),
{
}

/// A worker is asked whether it is well when it has no client, is not being
/// asked, and was last asked an interval ago.
pub proof fn law_when_a_worker_is_asked(w: Worker, now: i64, interval: u64)
    requires
        interval <= i64::MAX,
    ensures
        w.ping_due(now, interval) <==> !w.ping_pending && w.active_clients == 0 && now
            - w.last_pinged >= interval,
{
}

// ---------------------------------------------------------------------
// What the system tells
// ---------------------------------------------------------------------

proof fn lemma_first_after(items: Seq<Seq<char>>, prefix: Seq<char>, i: int)
    requires
        0 <= i < items.len(),
        prefix.is_prefix_of(items[i]),
        forall|j: int| 0 <= j < i ==> !prefix.is_prefix_of(#[trigger] items[j]),
    ensures
        pressure::first_after(items, prefix) == Some(items[i].skip(prefix.len() as int)),
    decreases i,
{
    if i > 0 {
        assert(!prefix.is_prefix_of(items[0]));
        let rest = items.drop_first();
        assert forall|j: int| 0 <= j < i - 1 implies !prefix.is_prefix_of(#[trigger] rest[j]) by {
            assert(rest[j] == items[j + 1]);
        }
        assert(rest[i - 1] == items[i]);
        lemma_first_after(rest, prefix, i - 1);
    }
}

/// What the system tells of stalls is the word behind `avg10=` of the first
/// line that tells of some.
pub proof fn law_the_first_average_counts(content: Seq<char>, i: int, k: int, value: Seq<char>)
    requires
        0 <= i < text::lines(content).len(),
        "some "@.is_prefix_of(text::lines(content)[i]),
        forall|j: int|
            0 <= j < i ==> !"some "@.is_prefix_of(#[trigger] text::lines(content)[j]),
        0 <= k < text::words(text::lines(content)[i].skip(5)).len(),
        text::words(text::lines(content)[i].skip(5))[k] == "avg10="@ + value,
        forall|j: int|
            0 <= j < k ==> !"avg10="@.is_prefix_of(
                #[trigger] text::words(text::lines(content)[i].skip(5))[j],
            ),
    ensures
        pressure::psi_text(content) == Some(value),
{
    reveal_strlit("some ");
    reveal_strlit("avg10=");
    let lines = text::lines(content);
    let words = text::words(lines[i].skip(5));
    lemma_first_after(lines, "some "@, i);
    assert("avg10="@ =~= words[k].subrange(0, 6));
    assert("avg10="@.is_prefix_of(words[k]));
    lemma_first_after(words, "avg10="@, k);
    assert(words[k].skip(6) =~= value);
}

/// The line gives a number of kilobytes under `name`.
pub open spec fn tells(line: Seq<char>, name: Seq<char>, spaces: Seq<char>, n: nat) -> bool {
    &&& line == name + spaces + numeric::decimal(n) + " kB"@
    &&& forall|i: int| 0 <= i < spaces.len() ==> #[trigger] spaces[i] == ' '
}

proof fn lemma_trim_start(spaces: Seq<char>, rest: Seq<char>)
    requires
        forall|i: int| 0 <= i < spaces.len() ==> #[trigger] spaces[i] == ' ',
        rest.len() > 0,
        !text::is_space(rest[0]),
    ensures
        text::trim_start(spaces + rest) == rest,
    decreases spaces.len(),
{
    let all = spaces + rest;
    if spaces.len() > 0 {
        assert(all[0] == spaces[0]);
        assert(all.drop_first() =~= spaces.drop_first() + rest);
        lemma_trim_start(spaces.drop_first(), rest);
    } else {
        assert(all =~= rest);
    }
}

proof fn lemma_kilobytes(spaces: Seq<char>, n: nat)
    requires
        forall|i: int| 0 <= i < spaces.len() ==> #[trigger] spaces[i] == ' ',
        n <= u64::MAX,
    ensures
        pressure::kilobytes(spaces + numeric::decimal(n) + " kB"@) == Some(n),
{
    reveal_strlit(" kB");
    reveal_strlit("kB");
    let digits = numeric::decimal(n);
    numeric::lemma_decimal(n);
    numeric::law_decimal_round_trip(n, u64::MAX as nat);
    let rest = digits + " kB"@;
    assert(rest[0] == digits[0]);
    assert(numeric::is_digit(digits[0]));
    assert(spaces + digits + " kB"@ =~= spaces + rest);
    lemma_trim_start(spaces, rest);
    assert(rest.last() == 'B');
    assert(text::trim_end(rest) == rest);
    assert(text::trim(spaces + rest) == rest);
    assert("kB"@ =~= rest.subrange(rest.len() - 2, rest.len() as int));
    assert("kB"@.is_suffix_of(rest));
    let spaced = digits + seq![' '];
    assert(rest.take(rest.len() - 2) =~= spaced);
    assert(!"kB"@.is_suffix_of(spaced)) by {
        let tail = spaced.subrange(spaced.len() - 2, spaced.len() as int);
        assert(tail[1] == ' ');
        assert("kB"@[1] == 'B');
    }
    reveal_with_fuel(pressure::without_kb, 2);
    assert(pressure::without_kb(rest) == spaced);
    assert(spaced[0] == digits[0]);
    assert(text::trim_start(spaced) == spaced);
    assert(spaced.last() == ' ');
    assert(spaced.drop_last() =~= digits);
    assert(numeric::is_digit(digits[digits.len() - 1]));
    assert(digits.last() == digits[digits.len() - 1]);
    assert(text::trim_end(digits) == digits);
    assert(text::trim_end(spaced) == digits);
    assert(text::trim(spaced) == digits);
}

proof fn lemma_lines(
    lines: Seq<Seq<char>>,
    i: int,
    j: int,
    a: Seq<char>,
    b: Seq<char>,
    avail: nat,
    total: nat,
)
    requires
        0 <= i < lines.len(),
        tells(lines[i], "MemAvailable:"@, a, avail),
        forall|k: int|
            i < k < lines.len() ==> !"MemAvailable:"@.is_prefix_of(#[trigger] lines[k]),
        0 <= j < lines.len(),
        tells(lines[j], "MemTotal:"@, b, total),
        forall|k: int| j < k < lines.len() ==> !"MemTotal:"@.is_prefix_of(#[trigger] lines[k]),
        avail <= u64::MAX,
        total <= u64::MAX,
    ensures
        pressure::mem_lines(lines) == (Some(avail * 1024), Some(total * 1024)),
    decreases lines.len(),
{
    lemma_one_line(lines, "MemAvailable:"@, i, a, avail);
    lemma_one_line(lines, "MemTotal:"@, j, b, total);
}

proof fn lemma_names_differ(line: Seq<char>)
    ensures
        !("MemAvailable:"@.is_prefix_of(line) && "MemTotal:"@.is_prefix_of(line)),
{
    reveal_strlit("MemAvailable:");
    reveal_strlit("MemTotal:");
    if "MemAvailable:"@.is_prefix_of(line) && "MemTotal:"@.is_prefix_of(line) {
        assert(line.subrange(0, 13)[3] == 'A');
        assert(line.subrange(0, 9)[3] == 'T');
        assert(line[3] == 'A');
    }
}

proof fn lemma_one_line(lines: Seq<Seq<char>>, name: Seq<char>, i: int, spaces: Seq<char>, n: nat)
    requires
        name == "MemAvailable:"@ || name == "MemTotal:"@,
        0 <= i < lines.len(),
        tells(lines[i], name, spaces, n),
        forall|k: int| i < k < lines.len() ==> !name.is_prefix_of(#[trigger] lines[k]),
        n <= u64::MAX,
    ensures
        name == "MemAvailable:"@ ==> pressure::mem_lines(lines).0 == Some(n * 1024),
        name == "MemTotal:"@ ==> pressure::mem_lines(lines).1 == Some(n * 1024),
    decreases lines.len(),
{
    let front = lines.drop_last();
    let line = lines.last();
    lemma_names_differ(line);
    lemma_names_apart();
    if i < lines.len() - 1 {
        assert(!name.is_prefix_of(lines[lines.len() - 1]));
        assert forall|k: int| i < k < front.len() implies !name.is_prefix_of(#[trigger] front[k]) by {
            assert(front[k] == lines[k]);
        }
        assert(front[i] == lines[i]);
        lemma_one_line(front, name, i, spaces, n);
    } else {
        assert(line == lines[i]);
        let rest = spaces + numeric::decimal(n) + " kB"@;
        assert(line =~= name + rest);
        assert(name =~= line.subrange(0, name.len() as int));
        assert(name.is_prefix_of(line));
        assert(line.skip(name.len() as int) =~= rest);
        lemma_kilobytes(spaces, n);
    }
}

proof fn lemma_names_apart()
    ensures
        "MemAvailable:"@ != "MemTotal:"@,
{
    reveal_strlit("MemAvailable:");
    reveal_strlit("MemTotal:");
    assert("MemAvailable:"@.len() != "MemTotal:"@.len());
}

/// What the system tells of memory is read from the last line of each name, in
/// units of 1024 bytes: first what is available, and then all.
pub proof fn law_kilobytes_are_read(
    content: Seq<char>,
    i: int,
    j: int,
    a: Seq<char>,
    b: Seq<char>,
    avail: nat,
    total: nat,
)
    requires
        0 <= i < text::lines(content).len(),
        tells(text::lines(content)[i], "MemAvailable:"@, a, avail),
        forall|k: int|
            i < k < text::lines(content).len() ==> !"MemAvailable:"@.is_prefix_of(
                #[trigger] text::lines(content)[k],
            ),
        0 <= j < text::lines(content).len(),
        tells(text::lines(content)[j], "MemTotal:"@, b, total),
        forall|k: int|
            j < k < text::lines(content).len() ==> !"MemTotal:"@.is_prefix_of(
                #[trigger] text::lines(content)[k],
            ),
        avail <= u64::MAX,
        total <= u64::MAX,
    ensures
        pressure::mem_info(content) == Some((avail * 1024, total * 1024)),
{
    lemma_lines(text::lines(content), i, j, a, b, avail, total);
}

/// What is watched has a name.
pub proof fn law_names_of_what_is_watched()
    ensures
        pressure::name_of(Source::Psi) == "psi"@,
        pressure::name_of(Source::MemFree) == "memfree"@,
        pressure::name_of(Source::Nowhere) == "none"@,
{
}

} // verus!
