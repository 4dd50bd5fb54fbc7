//! How numbers, paths and texts are shown.

use crate::numeric;
use crate::status;
use crate::text;
use vstd::prelude::*;

verus! {

/// A text is filled up with blanks to the width that it is to have, and one
/// that is wider stays as it is.
pub proof fn law_texts_are_filled_up(s: Seq<char>, width: nat, i: int)
    ensures
        s.len() >= width ==> status::left(s, width) == s && status::right(s, width) == s,
        s.len() < width ==> {
            &&& status::left(s, width).len() == width
            &&& status::right(s, width).len() == width
            &&& 0 <= i < s.len() ==> status::left(s, width)[i] == s[i]
            &&& s.len() <= i < width ==> status::left(s, width)[i] == ' '
            &&& 0 <= i < width - s.len() ==> status::right(s, width)[i] == ' '
            &&& width - s.len() <= i < width ==> status::right(s, width)[i] == s[i - (width
                - s.len())]
        },
{
}

/// A time is shown in its two largest units.
pub proof fn law_times_are_shown_in_two_units(d: nat, h: nat, m: nat, s: nat)
    requires
        h < 24,
        m < 60,
        s < 60,
    ensures
        status::duration_text(s as int) == numeric::decimal(s) + "s"@,
        m > 0 ==> status::duration_text((60 * m + s) as int) == numeric::decimal(m) + "m"@
            + numeric::decimal(s) + "s"@,
        h > 0 ==> status::duration_text((3600 * h + 60 * m + s) as int) == numeric::decimal(h)
            + "h"@ + numeric::decimal(m) + "m"@,
        d > 0 ==> status::duration_text((86400 * d + 3600 * h + 60 * m + s) as int)
            == numeric::decimal(d) + "d"@ + numeric::decimal(h) + "h"@,
        status::duration_text(-(s as int)) == numeric::decimal(0) + "s"@ || s == 0,
{
    let a = 60 * m + s;
    assert(a / 60 == m && a % 60 == s);
    let b = 3600 * h + 60 * m + s;
    assert(b / 3600 == h);
    assert(b / 60 == 60 * h + m);
    assert((60 * h + m) % 60 == m);
    let c = 86400 * d + 3600 * h + 60 * m + s;
    assert(c / 86400 == d);
    assert(c / 3600 == 24 * d + h);
    assert((24 * d + h) % 24 == h);
}

/// The home directory is shown as a tilde, but only where a path leads into
/// it.
pub proof fn law_home_is_a_tilde(home: Seq<char>, rest: Seq<char>, c: char)
    requires
        home.len() > 0,
    ensures
        status::home_contracted(home, Some(home)) == "~"@,
        status::home_contracted(home + "/"@ + rest, Some(home)) == "~/"@ + rest,
        c != '/' ==> status::home_contracted(home + seq![c] + rest, Some(home)) == home + seq![c]
            + rest,
        status::home_contracted(rest, None) == rest,
        !home.is_prefix_of(rest) ==> status::home_contracted(rest, Some(home)) == rest,
{
    reveal_strlit("~");
    reveal_strlit("/");
    reveal_strlit("~/");
    assert(home =~= home.subrange(0, home.len() as int));
    assert(home.skip(home.len() as int) =~= Seq::empty());
    assert("~"@ + Seq::empty() =~= "~"@);
    let a = home + "/"@ + rest;
    assert(home =~= a.subrange(0, home.len() as int));
    assert(a.skip(home.len() as int) =~= "/"@ + rest);
    assert("~"@ + ("/"@ + rest) =~= "~/"@ + rest);
    let b = home + seq![c] + rest;
    assert(b.skip(home.len() as int)[0] == c);
}

/// In JSON a quote, a backslash and a line feed are escaped, other characters
/// below the blank are written by their number, and all else is as it is.
pub proof fn law_json_escapes(c: char, s: Seq<char>)
    ensures
        status::json_char('"') == seq!['\\', '"'],
        status::json_char('\\') == seq!['\\', '\\'],
        status::json_char('\n') == seq!['\\', 'n'],
        status::json_char('\t') == seq!['\\', 'u'] + numeric::hex(9, 4),
        (c as u32) < 32 && c != '\n' ==> status::json_char(c) == seq!['\\', 'u'] + numeric::hex(
            c as nat,
            4,
        ),
        (c as u32) >= 32 && c != '"' && c != '\\' ==> status::json_char(c) == seq![c],
        status::json_chars(s.push(c)) == status::json_chars(s) + status::json_char(c),
        status::json_text(s) == seq!['"'] + status::json_chars(s) + seq!['"'],
        status::json_opt_text(Some(s)) == status::json_text(s),
        status::json_opt_text(None) == "null"@,
{
    assert(s.push(c).drop_last() =~= s);
}

/// Hexadecimal digits count in sixteens, and are filled up with noughts.
pub proof fn law_hexadecimal(n: nat)
    ensures
        n < 10 ==> numeric::in_base(n, 16) == seq![('0' as u32 + n) as char],
        10 <= n < 16 ==> numeric::in_base(n, 16) == seq![('a' as u32 + (n - 10)) as char],
        n >= 16 ==> numeric::in_base(n, 16) == numeric::in_base(n / 16, 16) + numeric::in_base(
            n % 16,
            16,
        ),
        numeric::in_base(n, 16).len() < 4 ==> numeric::hex(n, 4).len() == 4,
        n < 16 ==> numeric::hex(n, 4).take(3) == seq!['0', '0', '0'],
        n < 16 ==> numeric::hex(n, 4).skip(3) == numeric::in_base(n, 16),
{
    reveal_with_fuel(numeric::in_base, 2);
    if n >= 16 {
        assert(numeric::in_base(n, 16) =~= numeric::in_base(n / 16, 16) + numeric::in_base(
            n % 16,
            16,
        ));
    }
    if n < 16 {
        assert(numeric::hex(n, 4).take(3) =~= seq!['0', '0', '0']);
        assert(numeric::hex(n, 4).skip(3) =~= numeric::in_base(n, 16));
    }
}

// ---------------------------------------------------------------------
// Words, lines and pieces
// ---------------------------------------------------------------------

/// A text is cut into lines at line feeds; a carriage return before one goes
/// with it.
pub proof fn law_lines_end_at_line_feeds(line: Seq<char>, rest: Seq<char>)
    requires
        !line.contains('\n'),
        line.len() == 0 || line.last() != '\r',
    ensures
        text::lines(line + seq!['\n'] + rest) == seq![line] + text::lines(rest),
        text::lines(line + seq!['\r', '\n'] + rest) == seq![line] + text::lines(rest),
        text::lines(Seq::empty()) == Seq::<Seq<char>>::empty(),
        line.len() > 0 ==> text::lines(line) == seq![line],
{
    let a = line + seq!['\n'] + rest;
    let n = line.len() as int;
    assert forall|j: int| 0 <= j < n implies a[j] != '\n' by {
        assert(a[j] == line[j]);
        assert(line[j] == '\n' ==> line.contains(line[j]));
    }
    assert(a[n] == '\n');
    text::lemma_find_is(a, '\n', n);
    assert(a.take(n) =~= line);
    assert(a.skip(n + 1) =~= rest);
    let b = line + seq!['\r', '\n'] + rest;
    let with = line.push('\r');
    assert forall|j: int| 0 <= j < n + 1 implies b[j] != '\n' by {
        if j < n {
            assert(b[j] == line[j]);
            assert(line[j] == '\n' ==> line.contains(line[j]));
        } else {
            assert(b[j] == '\r');
        }
    }
    assert(b[n + 1] == '\n');
    text::lemma_find_is(b, '\n', n + 1);
    assert(b.take(n + 1) =~= with);
    assert(with.drop_last() =~= line);
    assert(b.skip(n + 2) =~= rest);
    assert forall|j: int| 0 <= j < n implies line[j] != '\n' by {
        assert(line[j] == '\n' ==> line.contains(line[j]));
    }
    text::lemma_find_is(line, '\n', n);
    assert(line.take(n) =~= line);
}

/// A text is cut at a character into the pieces between its occurrences.
pub proof fn law_pieces_between(piece: Seq<char>, rest: Seq<char>, c: char)
    requires
        !piece.contains(c),
    ensures
        text::split(piece, c) == seq![piece],
        text::split(piece + seq![c] + rest, c) == seq![piece] + text::split(rest, c),
{
    let n = piece.len() as int;
    assert forall|j: int| 0 <= j < n implies piece[j] != c by {
        assert(piece[j] == c ==> piece.contains(piece[j]));
    }
    text::lemma_find_is(piece, c, n);
    let a = piece + seq![c] + rest;
    assert forall|j: int| 0 <= j < n implies a[j] != c by {
        assert(a[j] == piece[j]);
    }
    assert(a[n] == c);
    text::lemma_find_is(a, c, n);
    assert(a.take(n) =~= piece);
    assert(a.skip(n + 1) =~= rest);
}

proof fn lemma_word_len(word: Seq<char>, rest: Seq<char>)
    requires
        forall|i: int| 0 <= i < word.len() ==> !text::is_space(#[trigger] word[i]),
        rest.len() == 0 || text::is_space(rest[0]),
    ensures
        text::word_len(word + rest) == word.len(),
    decreases word.len(),
{
    let all = word + rest;
    if word.len() > 0 {
        assert(all[0] == word[0]);
        assert(!text::is_space(word[0]));
        let tail = word.drop_first();
        assert forall|i: int| 0 <= i < tail.len() implies !text::is_space(#[trigger] tail[i]) by {
            assert(tail[i] == word[i + 1]);
        }
        assert(all.drop_first() =~= tail + rest);
        lemma_word_len(tail, rest);
    } else {
        assert(all =~= rest);
    }
}

/// Words are what stands between blanks, however many there are.
pub proof fn law_words_between_blanks(word: Seq<char>, rest: Seq<char>)
    requires
        word.len() > 0,
        forall|i: int| 0 <= i < word.len() ==> !text::is_space(#[trigger] word[i]),
    ensures
        text::words(word) == seq![word],
        text::words(word + seq![' '] + rest) == seq![word] + text::words(rest),
        text::words(seq![' '] + rest) == text::words(rest),
        text::words(Seq::empty()) == Seq::<Seq<char>>::empty(),
        text::is_space(' ') && text::is_space('\t') && text::is_space('\n'),
        forall|c: char| '!' <= c <= '~' ==> !#[trigger] text::is_space(c),
{
    let none = Seq::<char>::empty();
    assert(!text::is_space(word[0]));
    lemma_word_len(word, none);
    assert(word + none =~= word);
    assert(word.take(word.len() as int) =~= word);
    assert(word.skip(word.len() as int) =~= none);
    assert(text::words(none) =~= Seq::empty());
    assert(text::words(word) =~= seq![word]);
    let gap = seq![' '] + rest;
    assert(gap[0] == ' ');
    assert(gap.drop_first() =~= rest);
    let all = word + gap;
    assert(word + seq![' '] + rest =~= all);
    lemma_word_len(word, gap);
    assert(all[0] == word[0]);
    assert(all.take(word.len() as int) =~= word);
    assert(all.skip(word.len() as int) =~= gap);
    assert(text::words(gap) == text::words(rest));
}

/// Blanks at either end of a text are cut off, and nothing else is.
pub proof fn law_blanks_are_cut_off(s: Seq<char>)
    ensures
        text::trim_start(seq![' '] + s) == text::trim_start(s),
        text::trim_end(s.push(' ')) == text::trim_end(s),
        text::trim_end(s.push('\n')) == text::trim_end(s),
        s.len() > 0 && !text::is_space(s[0]) && !text::is_space(s.last()) ==> text::trim(s) == s,
        text::trim_end_char(s.push('/'), '/') == text::trim_end_char(s, '/'),
        s.len() > 0 && s.last() != '/' ==> text::trim_end_char(s, '/') == s,
{
    assert((seq![' '] + s).drop_first() =~= s);
    assert(s.push(' ').drop_last() =~= s);
    assert(s.push('\n').drop_last() =~= s);
    assert(s.push('/').drop_last() =~= s);
}

// ---------------------------------------------------------------------
// Numbers with a sign
// ---------------------------------------------------------------------

/// A number below nought is written and read with a minus sign; one that is
/// too small or too large is not read.
pub proof fn law_numbers_with_a_sign(n: nat, min: int, max: int)
    requires
        min <= 0 <= max,
    ensures
        numeric::signed(n as int) == numeric::decimal(n),
        n > 0 ==> numeric::signed(-(n as int)) == seq!['-'] + numeric::decimal(n),
        n <= max ==> numeric::parse_integer(numeric::decimal(n), min, max) == Some(n as int),
        n > max ==> numeric::parse_integer(numeric::decimal(n), min, max) is None,
        n <= -min ==> numeric::parse_integer(seq!['-'] + numeric::decimal(n), min, max) == Some(
            -(n as int),
        ),
        n > -min ==> numeric::parse_integer(seq!['-'] + numeric::decimal(n), min, max) is None,
        numeric::parse_integer(Seq::empty(), min, max) is None,
{
    let digits = numeric::decimal(n);
    numeric::lemma_decimal(n);
    assert(numeric::is_digit(digits[0]));
    let t = seq!['-'] + digits;
    assert(t[0] == '-');
    assert(t[1] == digits[0]);
    assert(t.skip(1) =~= digits);
    numeric::law_decimal_round_trip(n, n);
    if n <= max {
        numeric::law_decimal_round_trip(n, max as nat);
    }
    if n <= -min {
        numeric::law_decimal_round_trip(n, (-min) as nat);
    }
}

} // verus!
