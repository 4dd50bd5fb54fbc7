//! The state of the conductor, for people and for programs to read.

use crate::numeric;
use crate::numeric::{decimal_string, hex_string};
use crate::text;
use crate::text::{join2, owned, skip, split_char, starts_with, starts_with_char, to_chars};
use crate::wire::copy_all;
use vstd::prelude::*;

verus! {

// ---------------------------------------------------------------------
// The screen
// ---------------------------------------------------------------------

/// How often a live view is drawn again.
pub const LIVE_HEARTBEAT_MS: u64 = 1000;

/// Hides the cursor.
pub fn hide_cursor() -> (r: Vec<u8>)
    ensures
        r@ == vstd::utf8::encode_utf8("\u{1b}[?25l"@),
{
    copy_all("\u{1b}[?25l".as_bytes())
}

/// Shows the cursor again, on a new line.
pub fn show_cursor() -> (r: Vec<u8>)
    ensures
        r@ == vstd::utf8::encode_utf8("\u{1b}[?25h\r\n"@),
{
    copy_all("\u{1b}[?25h\r\n".as_bytes())
}

/// What draws `frame` in place of the `prev_lines` lines drawn before.
pub open spec fn redraw_text(prev_lines: nat, frame: Seq<char>) -> Seq<char> {
    "\u{1b}[?2026h"@ + (if prev_lines > 0 {
        "\u{1b}["@ + numeric::decimal(prev_lines) + "F"@
    } else {
        Seq::empty()
    }) + "\u{1b}[0J"@ + frame + "\u{1b}[?2026l"@
}

/// The bytes that draw `frame` in place of the `prev_lines` lines drawn
/// before, all at once: up by that many lines, clear to the end, and the frame.
pub fn redraw_sequence(prev_lines: usize, frame: &str) -> (r: Vec<u8>)
    ensures
        r@ == vstd::utf8::encode_utf8(redraw_text(prev_lines as nat, frame@)),
{
    let mut out = owned("\u{1b}[?2026h");
    let ghost head = out@;
    if prev_lines > 0 {
        let n = decimal_string(prev_lines as u64);
        out.append("\u{1b}[");
        out.append(n.as_str());
        out.append("F");
        assert(out@ =~= head + ("\u{1b}["@ + n@ + "F"@));
    } else {
        assert(out@ =~= head + Seq::<char>::empty());
    }
    out.append("\u{1b}[0J");
    out.append(frame);
    out.append("\u{1b}[?2026l");
    copy_all(out.as_str().as_bytes())
}

/// How many lines a frame takes.
pub fn line_count(frame: &str) -> (r: usize)
    ensures
        r == text::lines(frame@).len(),
{
    let lines = text::split_lines(frame);
    assert(text::views(lines@).len() == lines@.len());
    lines.len()
}

/// What a view of the status is: held open, or drawn once; for a program, or
/// for people.
#[derive(Clone, Copy, Debug, PartialEq, Eq, Structural)]
pub struct ViewKind {
    pub live: bool,
    pub json: bool,
}

/// The view that `--status=<format>` asks for: only a terminal gets one that
/// is held open.
pub fn view_kind(format: &str, tty: bool) -> (r: ViewKind)
    ensures
        r.live == (format@ == "live"@ && tty),
        r.json == (format@ == "json"@),
{
    ViewKind { live: text::same(format, "live") && tty, json: text::same(format, "json") }
}

// ---------------------------------------------------------------------
// Texts
// ---------------------------------------------------------------------

/// `s` with blanks behind it, up to `width` characters.
pub open spec fn left(s: Seq<char>, width: nat) -> Seq<char> {
    if s.len() < width {
        s + Seq::new((width - s.len()) as nat, |i: int| ' ')
    } else {
        s
    }
}

/// `s` with blanks before it, up to `width` characters.
pub open spec fn right(s: Seq<char>, width: nat) -> Seq<char> {
    if s.len() < width {
        Seq::new((width - s.len()) as nat, |i: int| ' ') + s
    } else {
        s
    }
}

fn blanks(n: usize) -> (r: String)
    ensures
        r@ == Seq::new(n as nat, |i: int| ' '),
{
    let mut out = String::new();
    let mut i: usize = 0;
    while i < n
        invariant
            i <= n,
            out@ =~= Seq::new(i as nat, |j: int| ' '),
        decreases n - i,
    {
        out.push(' ');
        i = i + 1;
    }
    out
}

pub fn push_left(out: &mut String, s: &str, width: usize)
    ensures
        final(out)@ == old(out)@ + left(s@, width as nat),
{
    let n: usize = s.unicode_len();
    out.append(s);
    if n < width {
        let pad = blanks(width - n);
        out.append(pad.as_str());
    }
    assert(out@ =~= old(out)@ + left(s@, width as nat));
}

pub fn push_right(out: &mut String, s: &str, width: usize)
    ensures
        final(out)@ == old(out)@ + right(s@, width as nat),
{
    let n: usize = s.unicode_len();
    if n < width {
        let pad = blanks(width - n);
        out.append(pad.as_str());
    }
    out.append(s);
    assert(out@ =~= old(out)@ + right(s@, width as nat));
}

/// A time span in its two largest units; none is shorter than no time.
pub open spec fn duration_text(secs: int) -> Seq<char> {
    let s = if secs < 0 {
        0
    } else {
        secs
    };
    if s < 60 {
        numeric::decimal(s as nat) + "s"@
    } else if s < 3600 {
        numeric::decimal((s / 60) as nat) + "m"@ + numeric::decimal((s % 60) as nat) + "s"@
    } else if s < 86400 {
        numeric::decimal((s / 3600) as nat) + "h"@ + numeric::decimal((s / 60 % 60) as nat) + "m"@
    } else {
        numeric::decimal((s / 86400) as nat) + "d"@ + numeric::decimal((s / 3600 % 24) as nat)
            + "h"@
    }
}

pub fn format_duration(secs: i64) -> (r: String)
    ensures
        r@ == duration_text(secs as int),
{
    let s: u64 = if secs < 0 {
        0
    } else {
        secs as u64
    };
    if s < 60 {
        let n = decimal_string(s);
        return join2(n.as_str(), "s");
    }
    let mins: u64 = s / 60;
    let (big, big_unit, small, small_unit): (u64, &str, u64, &str) = if mins < 60 {
        (mins, "m", s % 60, "s")
    } else {
        let hours: u64 = mins / 60;
        assert(hours == s / 3600);
        if hours < 24 {
            (hours, "h", mins % 60, "m")
        } else {
            assert(hours / 24 == s / 86400);
            (hours / 24, "d", hours % 24, "h")
        }
    };
    let a = decimal_string(big);
    let b = decimal_string(small);
    let mut out = join2(a.as_str(), big_unit);
    out.append(b.as_str());
    out.append(small_unit);
    out
}

/// `path` with a tilde in place of the home directory.
pub open spec fn home_contracted(path: Seq<char>, home: Option<Seq<char>>) -> Seq<char> {
    match home {
        Some(h) => {
            let rest = path.skip(h.len() as int);
            if h.len() > 0 && h.is_prefix_of(path) && (rest.len() == 0 || rest[0] == '/') {
                "~"@ + rest
            } else {
                path
            }
        },
        None => path,
    }
}

pub fn contract_home(path: &str, home: Option<&str>) -> (r: String)
    ensures
        r@ == home_contracted(path@, text::opt_str(home)),
{
    if let Some(h) = home {
        let n: usize = h.unicode_len();
        if n > 0 && starts_with(path, h) {
            let rest = skip(path, n);
            if rest.unicode_len() == 0 || starts_with_char(rest, '/') {
                return join2("~", rest);
            }
        }
    }
    owned(path)
}

/// What a key says of its pool.
pub struct KeyInfo {
    pub heading: String,
    pub channel: Option<String>,
}

/// Part `i` of a key, where it is there and not empty.
pub open spec fn part(parts: Seq<Seq<char>>, i: int) -> Option<Seq<char>> {
    if i < parts.len() && parts[i].len() > 0 {
        Some(parts[i])
    } else {
        None
    }
}

/// The heading over a pool.
pub open spec fn key_heading(key: Seq<char>, home: Option<Seq<char>>) -> Seq<char> {
    let parts = text::split(key, '\0');
    if "__sandbox__"@.is_prefix_of(key) {
        "sandboxed (remote)"@
    } else if "__lsandbox__"@.is_prefix_of(key) {
        home_contracted(
            match part(parts, 2) {
                Some(p) => p,
                None => "sandboxed"@,
            },
            home,
        ) + " (sandboxed)"@
    } else {
        match part(parts, 0) {
            Some(p) => home_contracted(p, home),
            None => "(default)"@,
        }
    }
}

/// The channel of a pool.
pub open spec fn key_channel(key: Seq<char>) -> Option<Seq<char>> {
    let parts = text::split(key, '\0');
    if !"__sandbox__"@.is_prefix_of(key) && "__lsandbox__"@.is_prefix_of(key) {
        part(parts, 3)
    } else {
        part(parts, 1)
    }
}

fn take_part(parts: &[String], i: usize) -> (r: Option<String>)
    ensures
        text::opt_view(r) == part(text::views(parts@), i as int),
{
    if i < parts.len() {
        let p = parts[i].as_str();
        if p.unicode_len() > 0 {
            return Some(owned(p));
        }
    }
    None
}

/// Reads the key of a pool.
pub fn describe_key(key: &str, home: Option<&str>) -> (r: KeyInfo)
    ensures
        r.heading@ == key_heading(key@, text::opt_str(home)),
        text::opt_view(r.channel) == key_channel(key@),
{
    let parts = split_char(key, '\0');
    if starts_with(key, "__sandbox__") {
        return KeyInfo {
            heading: owned("sandboxed (remote)"),
            channel: take_part(parts.as_slice(), 1),
        };
    }
    if starts_with(key, "__lsandbox__") {
        let project = match take_part(parts.as_slice(), 2) {
            Some(p) => p,
            None => owned("sandboxed"),
        };
        let shown = contract_home(project.as_str(), home);
        return KeyInfo {
            heading: join2(shown.as_str(), " (sandboxed)"),
            channel: take_part(parts.as_slice(), 3),
        };
    }
    let heading = match take_part(parts.as_slice(), 0) {
        Some(p) => contract_home(p.as_str(), home),
        None => owned("(default)"),
    };
    KeyInfo { heading, channel: take_part(parts.as_slice(), 1) }
}

/// The key of a pool says which project and which channel it is for.
pub proof fn law_key_describes_its_pool(
    project: Seq<char>,
    cwd: Seq<char>,
    channel: Seq<char>,
    threads: u32,
    home: Option<Seq<char>>,
)
    requires
        crate::request::no_nul(project),
        crate::request::no_nul(channel),
        !"__sandbox__"@.is_prefix_of(project),
        !"__lsandbox__"@.is_prefix_of(project),
    ensures
        ({
            let key = crate::request::pool_key(
                crate::request::SandboxMode::Off,
                project,
                cwd,
                channel,
                threads,
            );
            &&& key_heading(key, home) == if project.len() > 0 {
                home_contracted(project, home)
            } else {
                "(default)"@
            }
            &&& key_channel(key) == if channel.len() > 0 {
                Some(channel)
            } else {
                None
            }
        }),
{
    lemma_key_parts(project, cwd, channel, threads);
}

/// The key of a pool of confined workers says so, and which channel it is for;
/// where they are confined for their client's own sake, it says which project.
pub proof fn law_confined_key_describes_its_pool(
    mode: crate::request::SandboxMode,
    project: Seq<char>,
    cwd: Seq<char>,
    channel: Seq<char>,
    threads: u32,
    home: Option<Seq<char>>,
)
    requires
        mode != crate::request::SandboxMode::Off,
        crate::request::no_nul(crate::request::rw_mount(cwd, project)),
        crate::request::no_nul(crate::request::trimmed(project)),
        crate::request::no_nul(channel),
    ensures
        ({
            let key = crate::request::pool_key(mode, project, cwd, channel, threads);
            let p = crate::request::trimmed(project);
            &&& key_heading(key, home) == if mode == crate::request::SandboxMode::Remote {
                "sandboxed (remote)"@
            } else if p.len() > 0 {
                home_contracted(p, home) + " (sandboxed)"@
            } else {
                home_contracted("sandboxed"@, home) + " (sandboxed)"@
            }
            &&& key_channel(key) == if channel.len() > 0 {
                Some(channel)
            } else {
                None
            }
        }),
{
    let t = numeric::decimal(threads as nat);
    let parts = crate::request::key_parts(mode, project, cwd, channel, threads);
    numeric::lemma_decimal(threads as nat);
    assert forall|i: int| 0 <= i < t.len() implies t[i] != '\0' by {
        assert(numeric::is_digit(t[i]));
    }
    reveal_strlit("__sandbox__");
    reveal_strlit("__lsandbox__");
    assert(crate::request::no_nul("__sandbox__"@));
    assert(crate::request::no_nul("__lsandbox__"@));
    assert forall|i: int| 0 <= i < parts.len() implies crate::request::no_nul(
        #[trigger] parts[i],
    ) by {}
    crate::request::law_keys_come_apart(parts);
    lemma_joined_prefix(parts);
    let key = crate::request::nul_joined(parts);
    assert(parts[0] =~= key.take(parts[0].len() as int));
    if mode == crate::request::SandboxMode::Local {
        assert(parts[0] == "__lsandbox__"@);
        assert(key.take(12)[2] == 'l');
        assert(key[2] == 'l');
        assert("__sandbox__"@[2] == 's');
        assert(!"__sandbox__"@.is_prefix_of(key));
        assert("__lsandbox__"@.is_prefix_of(key));
    } else {
        assert("__sandbox__"@.is_prefix_of(key));
    }
}

/// Texts that are joined begin with the first of them.
proof fn lemma_joined_prefix(parts: Seq<Seq<char>>)
    requires
        parts.len() > 0,
    ensures
        parts[0].is_prefix_of(crate::request::nul_joined(parts)),
    decreases parts.len(),
{
    if parts.len() > 1 {
        lemma_joined_prefix(parts.drop_last());
    }
}

proof fn lemma_key_parts(project: Seq<char>, cwd: Seq<char>, channel: Seq<char>, threads: u32)
    requires
        crate::request::no_nul(project),
        crate::request::no_nul(channel),
        !"__sandbox__"@.is_prefix_of(project),
        !"__lsandbox__"@.is_prefix_of(project),
    ensures
        ({
            let key = crate::request::pool_key(
                crate::request::SandboxMode::Off,
                project,
                cwd,
                channel,
                threads,
            );
            &&& text::split(key, '\0') == seq![
                project,
                channel,
                numeric::decimal(threads as nat),
            ]
            &&& !"__sandbox__"@.is_prefix_of(key)
            &&& !"__lsandbox__"@.is_prefix_of(key)
        }),
{
    let t = numeric::decimal(threads as nat);
    let parts = seq![project, channel, t];
    numeric::lemma_decimal(threads as nat);
    assert(crate::request::no_nul(t)) by {
        assert forall|i: int| 0 <= i < t.len() implies t[i] != '\0' by {
            assert(numeric::is_digit(t[i]));
        }
    }
    crate::request::law_keys_come_apart(parts);
    let key = crate::request::nul_joined(parts);
    assert(parts.drop_last() =~= seq![project, channel]);
    assert(parts.drop_last().drop_last() =~= seq![project]);
    reveal_with_fuel(crate::request::nul_joined, 4);
    assert(key == project + seq!['\0'] + channel + seq!['\0'] + t);
    reveal_strlit("__sandbox__");
    reveal_strlit("__lsandbox__");
    lemma_not_prefix("__sandbox__"@, project, key);
    lemma_not_prefix("__lsandbox__"@, project, key);
}

/// A text without zero characters that does not begin `a` does not begin what
/// continues `a` with one.
proof fn lemma_not_prefix(p: Seq<char>, a: Seq<char>, key: Seq<char>)
    requires
        crate::request::no_nul(p),
        !p.is_prefix_of(a),
        a.len() < key.len(),
        a == key.take(a.len() as int),
        key[a.len() as int] == '\0',
    ensures
        !p.is_prefix_of(key),
{
    if p.is_prefix_of(key) {
        if p.len() <= a.len() {
            assert(p =~= a.take(p.len() as int));
        } else {
            assert(p[a.len() as int] == key[a.len() as int]);
        }
    }
}

// ---------------------------------------------------------------------
// JSON
// ---------------------------------------------------------------------

/// A character inside a string.
pub open spec fn json_char(c: char) -> Seq<char> {
    if c == '"' {
        seq!['\\', '"']
    } else if c == '\\' {
        seq!['\\', '\\']
    } else if c == '\n' {
        seq!['\\', 'n']
    } else if ' ' > c {
        seq!['\\', 'u'] + numeric::hex(c as nat, 4)
    } else {
        seq![c]
    }
}

pub open spec fn json_chars(s: Seq<char>) -> Seq<char>
    decreases s.len(),
{
    if s.len() == 0 {
        Seq::empty()
    } else {
        json_chars(s.drop_last()) + json_char(s.last())
    }
}

/// A string.
pub open spec fn json_text(s: Seq<char>) -> Seq<char> {
    seq!['"'] + json_chars(s) + seq!['"']
}

/// A string, or no value.
pub open spec fn json_opt_text(s: Option<Seq<char>>) -> Seq<char> {
    match s {
        Some(t) => json_text(t),
        None => "null"@,
    }
}

fn push_json_char(out: &mut String, c: char)
    ensures
        final(out)@ == old(out)@ + json_char(c),
{
    if c == '"' {
        out.push('\\');
        out.push('"');
    } else if c == '\\' {
        out.push('\\');
        out.push('\\');
    } else if c == '\n' {
        out.push('\\');
        out.push('n');
    } else if ' ' > c {
        out.push('\\');
        out.push('u');
        let code = hex_string(c as u64, 4);
        out.append(code.as_str());
    } else {
        out.push(c);
    }
    assert(out@ =~= old(out)@ + json_char(c));
}

pub fn json_str(s: &str) -> (r: String)
    ensures
        r@ == json_text(s@),
{
    let mut out = String::new();
    out.push('"');
    assert(out@ =~= seq!['"']);
    let chars = to_chars(s);
    let mut i: usize = 0;
    assert(s@.take(0) =~= Seq::empty());
    assert(seq!['"'] + json_chars(Seq::empty()) =~= seq!['"']);
    while i < chars.len()
        invariant
            i <= chars@.len(),
            chars@ == s@,
            out@ == seq!['"'] + json_chars(s@.take(i as int)),
        decreases chars@.len() - i,
    {
        push_json_char(&mut out, chars[i]);
        proof {
            assert(s@.take(i + 1).drop_last() =~= s@.take(i as int));
            assert(out@ =~= seq!['"'] + json_chars(s@.take(i + 1)));
        }
        i = i + 1;
    }
    assert(s@.take(i as int) =~= s@);
    out.push('"');
    assert(out@ =~= json_text(s@));
    out
}

pub fn json_opt_str(s: Option<&str>) -> (r: String)
    ensures
        r@ == json_opt_text(text::opt_str(s)),
{
    match s {
        Some(t) => json_str(t),
        None => owned("null"),
    }
}

// ---------------------------------------------------------------------
// Laws of texts in JSON
// ---------------------------------------------------------------------

/// Begins `json_chars` at the front.
proof fn lemma_json_front(s: Seq<char>)
    requires
        s.len() > 0,
    ensures
        json_chars(s) == json_char(s[0]) + json_chars(s.drop_first()),
    decreases s.len(),
{
    if s.len() == 1 {
        assert(s.drop_last() =~= Seq::empty());
        assert(s.drop_first() =~= Seq::empty());
        assert(json_chars(s) =~= json_char(s[0]) + json_chars(s.drop_first()));
    } else {
        lemma_json_front(s.drop_last());
        assert(s.drop_last().drop_first() =~= s.drop_first().drop_last());
        assert(json_chars(s) =~= json_char(s[0]) + json_chars(s.drop_first()));
    }
}

proof fn lemma_json_char(c: char)
    ensures
        json_char(c).len() >= 1,
        json_char(c).len() == 1 ==> json_char(c)[0] == c && c != '\\' && c != '"',
        json_char(c).len() > 1 ==> json_char(c)[0] == '\\',
        ' ' > c && c != '\n' ==> json_char(c).len() == 6,
        forall|i: int| 0 <= i < json_char(c).len() ==> #[trigger] json_char(c)[i] >= ' ',
{
    if ' ' > c && c != '\n' {
        numeric::lemma_hex_small(c as nat);
    }
}

/// A text comes out on one line: no character of it controls a terminal.
pub proof fn law_json_is_printable(s: Seq<char>)
    ensures
        forall|i: int| 0 <= i < json_text(s).len() ==> #[trigger] json_text(s)[i] >= ' ',
    decreases s.len(),
{
    if s.len() > 0 {
        law_json_is_printable(s.drop_last());
        lemma_json_char(s.last());
        let a = json_chars(s.drop_last());
        assert forall|i: int| 0 <= i < json_chars(s).len() implies #[trigger] json_chars(s)[i]
            >= ' ' by {
            if i < a.len() {
                assert(json_text(s.drop_last())[i + 1] == a[i]);
            }
        }
    }
    assert forall|i: int| 0 <= i < json_text(s).len() implies #[trigger] json_text(s)[i]
        >= ' ' by {
        if 0 < i < json_text(s).len() - 1 {
            assert(json_text(s)[i] == json_chars(s)[i - 1]);
        }
    }
}

/// Different texts stay different.
pub proof fn law_json_is_injective(a: Seq<char>, b: Seq<char>)
    requires
        json_text(a) == json_text(b),
    ensures
        a == b,
{
    let n = json_text(a).len();
    assert(json_chars(a) =~= json_text(a).subrange(1, n - 1));
    assert(json_chars(b) =~= json_text(b).subrange(1, n - 1));
    lemma_json_injective(a, b);
}

/// What a text begins with can be read off.
proof fn lemma_json_first(c: char, d: char, s: Seq<char>, t: Seq<char>)
    requires
        json_char(c) + s == json_char(d) + t,
    ensures
        c == d,
{
    lemma_json_char(c);
    lemma_json_char(d);
    let (x, y) = (json_char(c), json_char(d));
    assert((x + s)[0] == (y + t)[0]);
    assert(x[0] == y[0]);
    if x.len() > 1 {
        assert(y.len() > 1);
        assert((x + s)[1] == (y + t)[1]);
        assert(x[1] == y[1]);
        if x[1] == 'u' {
            assert(x =~= (x + s).take(6));
            assert(y =~= (y + t).take(6));
            assert(numeric::hex(c as nat, 4) =~= x.skip(2));
            assert(numeric::hex(d as nat, 4) =~= y.skip(2));
            numeric::law_hex_injective(c as nat, d as nat, 4);
        }
    }
}

proof fn lemma_json_injective(a: Seq<char>, b: Seq<char>)
    requires
        json_chars(a) == json_chars(b),
    ensures
        a == b,
    decreases a.len(),
{
    if a.len() == 0 || b.len() == 0 {
        if b.len() > 0 {
            lemma_json_front(b);
            lemma_json_char(b[0]);
            assert(json_chars(b).len() > 0);
            assert(json_chars(a).len() == 0);
        }
        if a.len() > 0 {
            lemma_json_front(a);
            lemma_json_char(a[0]);
            assert(json_chars(a).len() > 0);
            assert(json_chars(b).len() == 0);
        }
        assert(a =~= b);
    } else {
        lemma_json_front(a);
        lemma_json_front(b);
        lemma_json_char(a[0]);
        lemma_json_char(b[0]);
        let (x, y) = (json_char(a[0]), json_char(b[0]));
        let (s, t) = (json_chars(a.drop_first()), json_chars(b.drop_first()));
        lemma_json_first(a[0], b[0], s, t);
        assert(s =~= (x + s).skip(x.len() as int));
        assert(t =~= (y + t).skip(y.len() as int));
        lemma_json_injective(a.drop_first(), b.drop_first());
        assert(a =~= seq![a[0]] + a.drop_first());
        assert(b =~= seq![b[0]] + b.drop_first());
    }
}

} // verus!
