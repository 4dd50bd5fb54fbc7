//! Whether memory is short.

use crate::config;
use crate::config::{Config, MemThreshold};
use crate::numeric;
use crate::numeric::parse_decimal;
use crate::text;
use crate::text::{ends_with, owned, skip, split_lines, split_words, starts_with, take, trim_str};
use vstd::prelude::*;

verus! {

/// Where the monitor looks: at how long tasks wait for memory, at how much
/// memory is free, or nowhere.
#[derive(Clone, Copy, Debug, PartialEq, Eq, Structural)]
pub enum Source {
    Psi,
    MemFree,
    Nowhere,
}

pub struct PressureMonitor {
    source: Source,
    memfree_low: MemThreshold,
    memfree_high: MemThreshold,
    under_pressure: bool,
}

/// A look at the free memory: the bytes available, and whether they are less
/// than the low and the high threshold where those are fractions.
#[derive(Clone, Copy, Debug)]
pub struct MemReading {
    pub avail: u64,
    pub below_low_fraction: bool,
    pub below_high_fraction: bool,
}

// ---------------------------------------------------------------------
// Model
// ---------------------------------------------------------------------

/// Where a monitor looks, by what can be read.
pub open spec fn source_for(enabled: bool, psi_readable: bool, mem_readable: bool) -> Source {
    if !enabled {
        Source::Nowhere
    } else if psi_readable {
        Source::Psi
    } else if mem_readable {
        Source::MemFree
    } else {
        Source::Nowhere
    }
}

/// Fewer bytes are available than the threshold asks for.
pub open spec fn short(threshold: config::MemText, avail: u64, below_fraction: bool) -> bool {
    match threshold {
        config::MemText::Bytes(b) => avail < b,
        _ => below_fraction,
    }
}

/// Whether there is pressure after a look at the free memory: it begins below
/// the low threshold, and ends above the high one.
pub open spec fn pressure_after(
    low: config::MemText,
    high: config::MemText,
    before: bool,
    m: MemReading,
) -> bool {
    if before {
        short(high, m.avail, m.below_high_fraction)
    } else {
        short(low, m.avail, m.below_low_fraction)
    }
}

/// Between two thresholds in bytes nothing changes: pressure that there is
/// goes on, and pressure that there is not does not begin.
pub proof fn law_no_flapping_between_thresholds(low: nat, high: nat, before: bool, m: MemReading)
    requires
        low <= m.avail < high,
    ensures
        pressure_after(
            config::MemText::Bytes(low),
            config::MemText::Bytes(high),
            before,
            m,
        ) == before,
{
}

/// Below the low threshold there is always pressure, and above the high one
/// never, where the low one is not above the high one.
pub proof fn law_thresholds_decide(low: nat, high: nat, before: bool, m: MemReading)
    requires
        low <= high,
    ensures
        m.avail < low ==> pressure_after(
            config::MemText::Bytes(low),
            config::MemText::Bytes(high),
            before,
            m,
        ),
        m.avail >= high ==> !pressure_after(
            config::MemText::Bytes(low),
            config::MemText::Bytes(high),
            before,
            m,
        ),
{
}

// ---------------------------------------------------------------------
// The monitor
// ---------------------------------------------------------------------

impl PressureMonitor {
    pub closed spec fn looks_at(&self) -> Source {
        self.source
    }

    pub closed spec fn pressed(&self) -> bool {
        self.under_pressure
    }

    pub closed spec fn low(&self) -> config::MemText {
        config::mem_view(self.memfree_low)
    }

    pub closed spec fn high(&self) -> config::MemText {
        config::mem_view(self.memfree_high)
    }

    /// A monitor. The caller has tried to read both sources.
    pub fn new(cfg: &Config, psi_readable: bool, mem_readable: bool) -> (r: Self)
        ensures
            r.looks_at() == source_for(cfg.memory_pressure, psi_readable, mem_readable),
            !r.pressed(),
            r.low() == config::mem_view(cfg.memfree_low),
            r.high() == config::mem_view(cfg.memfree_high),
    {
        let source = if !cfg.memory_pressure {
            Source::Nowhere
        } else if psi_readable {
            Source::Psi
        } else if mem_readable {
            Source::MemFree
        } else {
            Source::Nowhere
        };
        PressureMonitor {
            source,
            memfree_low: copy_threshold(&cfg.memfree_low),
            memfree_high: copy_threshold(&cfg.memfree_high),
            under_pressure: false,
        }
    }

    /// Whether the monitor looks anywhere.
    pub fn active(&self) -> (r: bool)
        ensures
            r == (self.looks_at() != Source::Nowhere),
    {
        self.source != Source::Nowhere
    }

    pub fn source(&self) -> (r: Source)
        ensures
            r == self.looks_at(),
    {
        self.source
    }

    /// Whether there is pressure after a look with these readings. What cannot
    /// be read changes nothing.
    pub open spec fn pressed_by(&self, psi_reached: Option<bool>, mem: Option<MemReading>) -> bool {
        match self.looks_at() {
            Source::Nowhere => self.pressed(),
            Source::Psi => match psi_reached {
                Some(reached) => reached,
                None => self.pressed(),
            },
            Source::MemFree => match mem {
                Some(m) => pressure_after(self.low(), self.high(), self.pressed(), m),
                None => self.pressed(),
            },
        }
    }

    /// The monitor looks somewhere, and there is pressure with these readings.
    pub open spec fn alarmed_by(&self, psi_reached: Option<bool>, mem: Option<MemReading>) -> bool {
        self.looks_at() != Source::Nowhere && self.pressed_by(psi_reached, mem)
    }

    /// This is `other` after a look with these readings.
    pub open spec fn has_polled(
        &self,
        other: &PressureMonitor,
        psi_reached: Option<bool>,
        mem: Option<MemReading>,
    ) -> bool {
        &&& self.looks_at() == other.looks_at()
        &&& self.low() == other.low()
        &&& self.high() == other.high()
        &&& self.pressed() == other.pressed_by(psi_reached, mem)
    }

    /// Whether a look with these readings would find pressure.
    pub fn would_press(&self, psi_reached: Option<bool>, mem: Option<MemReading>) -> (r: bool)
        ensures
            r == self.alarmed_by(psi_reached, mem),
    {
        match self.source {
            Source::Nowhere => false,
            Source::Psi => match psi_reached {
                Some(reached) => reached,
                None => self.under_pressure,
            },
            Source::MemFree => match mem {
                Some(m) => if self.under_pressure {
                    self.memfree_high.satisfied(m.avail, m.below_high_fraction)
                } else {
                    self.memfree_low.satisfied(m.avail, m.below_low_fraction)
                },
                None => self.under_pressure,
            },
        }
    }

    /// Whether there is pressure, after a look: `psi_reached` says whether
    /// waiting has reached its threshold, `mem` what memory is free, as far as
    /// they could be read. What cannot be read changes nothing.
    pub fn poll(&mut self, psi_reached: Option<bool>, mem: Option<MemReading>) -> (r: bool)
        ensures
            final(self).has_polled(old(self), psi_reached, mem),
            r == old(self).alarmed_by(psi_reached, mem),
    {
        let pressed = self.would_press(psi_reached, mem);
        if self.source != Source::Nowhere {
            self.under_pressure = pressed;
        }
        pressed
    }

    pub fn source_name(&self) -> (r: &'static str)
        ensures
            r@ == name_of(self.looks_at()),
    {
        match self.source {
            Source::Psi => "psi",
            Source::MemFree => "memfree",
            Source::Nowhere => "none",
        }
    }
}

pub open spec fn name_of(s: Source) -> Seq<char> {
    match s {
        Source::Psi => "psi"@,
        Source::MemFree => "memfree"@,
        Source::Nowhere => "none"@,
    }
}

fn copy_threshold(m: &MemThreshold) -> (r: MemThreshold)
    ensures
        config::mem_view(r) == config::mem_view(*m),
{
    match m {
        MemThreshold::Fraction(s) => MemThreshold::Fraction(owned(s.as_str())),
        MemThreshold::Bytes(n) => MemThreshold::Bytes(*n),
    }
}

// ---------------------------------------------------------------------
// What the system reports
// ---------------------------------------------------------------------

/// The first of `items` that begins with `prefix`, without it.
pub open spec fn first_after(items: Seq<Seq<char>>, prefix: Seq<char>) -> Option<Seq<char>>
    decreases items.len(),
{
    if items.len() == 0 {
        None
    } else if prefix.is_prefix_of(items[0]) {
        Some(items[0].skip(prefix.len() as int))
    } else {
        first_after(items.drop_first(), prefix)
    }
}

fn find_after(items: &[String], prefix: &str) -> (r: Option<String>)
    ensures
        text::opt_view(r) == first_after(text::views(items@), prefix@),
{
    let ghost all = text::views(items@);
    let n: usize = prefix.unicode_len();
    let mut i: usize = 0;
    assert(all.skip(0) =~= all);
    while i < items.len()
        invariant
            i <= items@.len(),
            n == prefix@.len(),
            all == text::views(items@),
            first_after(all, prefix@) == first_after(all.skip(i as int), prefix@),
        decreases items@.len() - i,
    {
        assert(all.skip(i as int).drop_first() =~= all.skip(i + 1));
        let item = items[i].as_str();
        if starts_with(item, prefix) {
            return Some(owned(skip(item, n)));
        }
        i = i + 1;
    }
    None
}

/// The share of time in the last ten seconds in which some task waited for
/// memory, as `/proc/pressure/memory` writes it.
pub open spec fn psi_text(content: Seq<char>) -> Option<Seq<char>> {
    match first_after(text::lines(content), "some "@) {
        Some(rest) => first_after(text::words(rest), "avg10="@),
        None => None,
    }
}

pub fn psi_avg10(content: &str) -> (r: Option<String>)
    ensures
        text::opt_view(r) == psi_text(content@),
{
    let lines = split_lines(content);
    match find_after(lines.as_slice(), "some ") {
        Some(rest) => {
            let words = split_words(rest.as_str());
            find_after(words.as_slice(), "avg10=")
        },
        None => None,
    }
}

/// `s` without any of the copies of `kB` that end it.
pub open spec fn without_kb(s: Seq<char>) -> Seq<char>
    decreases s.len(),
{
    if "kB"@.len() > 0 && "kB"@.is_suffix_of(s) {
        without_kb(s.take(s.len() - "kB"@.len()))
    } else {
        s
    }
}

/// The number of kilobytes that the end of a line gives.
pub open spec fn kilobytes(rest: Seq<char>) -> Option<nat> {
    numeric::parse_unsigned(text::trim(without_kb(text::trim(rest))), u64::MAX as nat)
}

/// The same in bytes.
pub open spec fn kb_bytes(rest: Seq<char>) -> Option<nat> {
    match kilobytes(rest) {
        Some(n) => Some(n * 1024),
        None => None,
    }
}

/// The bytes available and the bytes in all, by the lines of `/proc/meminfo`;
/// each is what the last line about it says.
pub open spec fn mem_lines(lines: Seq<Seq<char>>) -> (Option<nat>, Option<nat>)
    decreases lines.len(),
{
    if lines.len() == 0 {
        (None, None)
    } else {
        let (avail, total) = mem_lines(lines.drop_last());
        let line = lines.last();
        if "MemAvailable:"@.is_prefix_of(line) {
            (kb_bytes(line.skip("MemAvailable:"@.len() as int)), total)
        } else if "MemTotal:"@.is_prefix_of(line) {
            (avail, kb_bytes(line.skip("MemTotal:"@.len() as int)))
        } else {
            (avail, total)
        }
    }
}

/// Line `i` gives a number of bytes that sixty-four bits do not hold.
pub open spec fn line_overflows(line: Seq<char>) -> bool {
    if "MemAvailable:"@.is_prefix_of(line) {
        kb_bytes(line.skip("MemAvailable:"@.len() as int)) matches Some(n) && n > u64::MAX
    } else if "MemTotal:"@.is_prefix_of(line) {
        kb_bytes(line.skip("MemTotal:"@.len() as int)) matches Some(n) && n > u64::MAX
    } else {
        false
    }
}

/// Some line does.
pub open spec fn mem_overflows(content: Seq<char>) -> bool {
    exists|i: int|
        0 <= i < text::lines(content).len() && line_overflows(#[trigger] text::lines(content)[i])
}

/// Both numbers, where both are there.
pub open spec fn mem_info(content: Seq<char>) -> Option<(nat, nat)> {
    match mem_lines(text::lines(content)) {
        (Some(avail), Some(total)) => Some((avail, total)),
        _ => None,
    }
}

fn strip_kb(s: &str) -> (r: &str)
    ensures
        r@ == without_kb(s@),
    decreases s@.len(),
{
    proof {
        reveal_strlit("kB");
    }
    if ends_with(s, "kB") {
        let n: usize = s.unicode_len();
        strip_kb(take(s, n - 2))
    } else {
        s
    }
}

/// What a line gives, with whether sixty-four bits hold it.
fn parse_kb(rest: &str) -> (r: Option<(u64, bool)>)
    ensures
        match r {
            Some((n, fits)) => kilobytes(rest@) == Some(n as nat) && fits == (n as nat * 1024
                <= u64::MAX),
            None => kilobytes(rest@) is None,
        },
{
    let trimmed = trim_str(strip_kb(trim_str(rest)));
    match parse_decimal(trimmed, u64::MAX) {
        Some(n) => Some((n, n <= u64::MAX / 1024)),
        None => None,
    }
}

pub open spec fn opt_nat(v: Option<u64>) -> Option<nat> {
    match v {
        Some(n) => Some(n as nat),
        None => None,
    }
}

/// What `/proc/meminfo` says, or `None` where a number in it is too large to
/// be counted in bytes.
pub fn try_meminfo(content: &str) -> (r: Option<Option<(u64, u64)>>)
    ensures
        r is None <==> mem_overflows(content@),
        r matches Some(m) ==> mem_info(content@) == match m {
            Some((avail, total)) => Some((avail as nat, total as nat)),
            None => None,
        },
{
    let lines = split_lines(content);
    let ghost all = text::lines(content@);
    let mut avail: Option<u64> = None;
    let mut total: Option<u64> = None;
    let mut i: usize = 0;
    assert(all.take(0) =~= Seq::empty());
    proof {
        reveal_strlit("MemAvailable:");
        reveal_strlit("MemTotal:");
    }
    while i < lines.len()
        invariant
            i <= lines@.len(),
            text::views(lines@) == all,
            all == text::lines(content@),
            "MemAvailable:"@.len() == 13,
            "MemTotal:"@.len() == 9,
            mem_lines(all.take(i as int)) == (opt_nat(avail), opt_nat(total)),
            forall|j: int| 0 <= j < i ==> !line_overflows(#[trigger] all[j]),
        decreases lines@.len() - i,
    {
        let line = lines[i].as_str();
        proof {
            assert(all[i as int] == line@);
            assert(all.take(i + 1).drop_last() =~= all.take(i as int));
        }
        if starts_with(line, "MemAvailable:") {
            match parse_kb(skip(line, 13)) {
                Some((n, fits)) => {
                    if !fits {
                        assert(line_overflows(all[i as int]));
                        return None;
                    }
                    avail = Some(n * 1024);
                },
                None => {
                    avail = None;
                },
            }
        } else if starts_with(line, "MemTotal:") {
            match parse_kb(skip(line, 9)) {
                Some((n, fits)) => {
                    if !fits {
                        assert(line_overflows(all[i as int]));
                        return None;
                    }
                    total = Some(n * 1024);
                },
                None => {
                    total = None;
                },
            }
        }
        i = i + 1;
    }
    assert(all.take(i as int) =~= all);
    match (avail, total) {
        (Some(a), Some(t)) => Some(Some((a, t))),
        _ => Some(None),
    }
}

/// The bytes available and the bytes in all, from `/proc/meminfo`.
pub fn read_meminfo(content: &str) -> (r: Option<(u64, u64)>)
    requires
        !mem_overflows(content@),
    ensures
        mem_info(content@) == match r {
            Some((avail, total)) => Some((avail as nat, total as nat)),
            None => None,
        },
{
    match try_meminfo(content) {
        Some(m) => m,
        None => None,
    }
}

} // verus!
