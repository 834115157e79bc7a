use vstd::prelude::*;
use vstd::string::*;

verus! {

/// The lower-case hexadecimal digit for `n`, for `0 <= n < 16`.
pub open spec fn hex_digit(n: int) -> char {
    if n == 0 {
        '0'
    } else if n == 1 {
        '1'
    } else if n == 2 {
        '2'
    } else if n == 3 {
        '3'
    } else if n == 4 {
        '4'
    } else if n == 5 {
        '5'
    } else if n == 6 {
        '6'
    } else if n == 7 {
        '7'
    } else if n == 8 {
        '8'
    } else if n == 9 {
        '9'
    } else if n == 10 {
        'a'
    } else if n == 11 {
        'b'
    } else if n == 12 {
        'c'
    } else if n == 13 {
        'd'
    } else if n == 14 {
        'e'
    } else {
        'f'
    }
}

/// JSON escaping of one character: quote and backslash get a backslash,
/// the common control characters get their short escapes, any other
/// control character becomes a `\u00..` escape, and everything else
/// stands for itself.
pub open spec fn escape_char(c: char) -> Seq<char> {
    if c == '"' {
        seq!['\\', '"']
    } else if c == '\\' {
        seq!['\\', '\\']
    } else if c == '\n' {
        seq!['\\', 'n']
    } else if c == '\r' {
        seq!['\\', 'r']
    } else if c == '\t' {
        seq!['\\', 't']
    } else if c == '\u{8}' {
        seq!['\\', 'b']
    } else if c == '\u{c}' {
        seq!['\\', 'f']
    } else if (c as u32) < 32 {
        seq!['\\', 'u', '0', '0', hex_digit(c as u32 as int / 16), hex_digit(c as u32 as int % 16)]
    } else {
        seq![c]
    }
}

/// JSON escaping of a whole string, character by character.
pub open spec fn escape_seq(s: Seq<char>) -> Seq<char>
    decreases s.len(),
{
    if s.len() == 0 {
        Seq::empty()
    } else {
        escape_seq(s.drop_last()) + escape_char(s.last())
    }
}

/// A string as it appears in JSON output: escaped and wrapped in quotes.
pub open spec fn quoted(s: Seq<char>) -> Seq<char> {
    seq!['"'] + escape_seq(s) + seq!['"']
}

/// The character a short escape `\x` stands for.
pub open spec fn named_of(x: char) -> char {
    if x == '"' {
        '"'
    } else if x == '\\' {
        '\\'
    } else if x == 'n' {
        '\n'
    } else if x == 'r' {
        '\r'
    } else if x == 't' {
        '\t'
    } else if x == 'b' {
        '\u{8}'
    } else if x == 'f' {
        '\u{c}'
    } else {
        x
    }
}

/// The control character a `\u00..` escape with hexadecimal digits
/// `h1 h2` stands for.
pub open spec fn control_of(h1: char, h2: char) -> char {
    if h1 == '0' {
        if h2 == '0' {
            '\u{0}'
        } else if h2 == '1' {
            '\u{1}'
        } else if h2 == '2' {
            '\u{2}'
        } else if h2 == '3' {
            '\u{3}'
        } else if h2 == '4' {
            '\u{4}'
        } else if h2 == '5' {
            '\u{5}'
        } else if h2 == '6' {
            '\u{6}'
        } else if h2 == '7' {
            '\u{7}'
        } else if h2 == '8' {
            '\u{8}'
        } else if h2 == '9' {
            '\u{9}'
        } else if h2 == 'a' {
            '\u{a}'
        } else if h2 == 'b' {
            '\u{b}'
        } else if h2 == 'c' {
            '\u{c}'
        } else if h2 == 'd' {
            '\u{d}'
        } else if h2 == 'e' {
            '\u{e}'
        } else {
            '\u{f}'
        }
    } else {
        if h2 == '0' {
            '\u{10}'
        } else if h2 == '1' {
            '\u{11}'
        } else if h2 == '2' {
            '\u{12}'
        } else if h2 == '3' {
            '\u{13}'
        } else if h2 == '4' {
            '\u{14}'
        } else if h2 == '5' {
            '\u{15}'
        } else if h2 == '6' {
            '\u{16}'
        } else if h2 == '7' {
            '\u{17}'
        } else if h2 == '8' {
            '\u{18}'
        } else if h2 == '9' {
            '\u{19}'
        } else if h2 == 'a' {
            '\u{1a}'
        } else if h2 == 'b' {
            '\u{1b}'
        } else if h2 == 'c' {
            '\u{1c}'
        } else if h2 == 'd' {
            '\u{1d}'
        } else if h2 == 'e' {
            '\u{1e}'
        } else {
            '\u{1f}'
        }
    }
}

/// Reads escaped text back, left to right: a backslash opens a short
/// escape or a `\u00..` escape, any other character stands for itself.
pub open spec fn unescape(t: Seq<char>) -> Seq<char>
    decreases t.len(),
{
    if t.len() == 0 {
        Seq::empty()
    } else if t[0] == '\\' && t.len() >= 2 {
        if t[1] == 'u' {
            if t.len() >= 6 {
                seq![control_of(t[4], t[5])] + unescape(t.skip(6))
            } else {
                unescape(t.skip(2))
            }
        } else {
            seq![named_of(t[1])] + unescape(t.skip(2))
        }
    } else {
        seq![t[0]] + unescape(t.skip(1))
    }
}

/// Relies on String::push: appends the given character to the string.
#[verifier::external_body]
pub(crate) fn push_char(out: &mut String, c: char)
    ensures
        final(out)@ == old(out)@.push(c),
{
    out.push(c);
}

/// Appends the JSON escape of one character.
fn push_escape_char(out: &mut String, c: char)
    ensures
        final(out)@ == old(out)@ + escape_char(c),
{
    if c == '"' {
        push_char(out, '\\');
        push_char(out, '"');
    } else if c == '\\' {
        push_char(out, '\\');
        push_char(out, '\\');
    } else if c == '\n' {
        push_char(out, '\\');
        push_char(out, 'n');
    } else if c == '\r' {
        push_char(out, '\\');
        push_char(out, 'r');
    } else if c == '\t' {
        push_char(out, '\\');
        push_char(out, 't');
    } else if c == '\u{8}' {
        push_char(out, '\\');
        push_char(out, 'b');
    } else if c == '\u{c}' {
        push_char(out, '\\');
        push_char(out, 'f');
    } else if (c as u32) < 32 {
        let code: u32 = c as u32;
        push_char(out, '\\');
        push_char(out, 'u');
        push_char(out, '0');
        push_char(out, '0');
        let hi = hex_digit_char(code / 16);
        push_char(out, hi);
        let lo = hex_digit_char(code % 16);
        push_char(out, lo);
    } else {
        push_char(out, c);
    }
    proof {
        assert(final(out)@ =~= old(out)@ + escape_char(c));
    }
}

/// The lower-case hexadecimal digit character for `n < 16`.
fn hex_digit_char(n: u32) -> (c: char)
    requires
        n < 16,
    ensures
        c == hex_digit(n as int),
{
    if n == 0 {
        '0'
    } else if n == 1 {
        '1'
    } else if n == 2 {
        '2'
    } else if n == 3 {
        '3'
    } else if n == 4 {
        '4'
    } else if n == 5 {
        '5'
    } else if n == 6 {
        '6'
    } else if n == 7 {
        '7'
    } else if n == 8 {
        '8'
    } else if n == 9 {
        '9'
    } else if n == 10 {
        'a'
    } else if n == 11 {
        'b'
    } else if n == 12 {
        'c'
    } else if n == 13 {
        'd'
    } else if n == 14 {
        'e'
    } else {
        'f'
    }
}

/// Appends the JSON escape of every character of `s`, in order.
pub(crate) fn push_escaped(out: &mut String, s: &str)
    ensures
        final(out)@ == old(out)@ + escape_seq(s@),
{
    let n = s.unicode_len();
    let mut i: usize = 0;
    while i < n
        invariant
            n == s@.len(),
            i <= n,
            out@ == old(out)@ + escape_seq(s@.subrange(0, i as int)),
        decreases n - i,
    {
        let c = s.get_char(i);
        push_escape_char(out, c);
        proof {
            let pre = s@.subrange(0, (i + 1) as int);
            assert(pre.drop_last() =~= s@.subrange(0, i as int));
            assert(pre.last() == c);
        }
        i += 1;
    }
    proof {
        assert(s@.subrange(0, s@.len() as int) =~= s@);
    }
}

/// Appends `s` escaped and wrapped in quotes.
pub(crate) fn push_quoted(out: &mut String, s: &str)
    ensures
        final(out)@ == old(out)@ + quoted(s@),
{
    push_char(out, '"');
    push_escaped(out, s);
    push_char(out, '"');
    proof {
        assert(final(out)@ =~= old(out)@ + quoted(s@));
    }
}

} // verus!
