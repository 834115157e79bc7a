use vstd::prelude::*;

use crate::escape::control_of;
use crate::escape::escape_char;
use crate::escape::escape_seq;
use crate::escape::hex_digit;
use crate::escape::named_of;
use crate::escape::quoted;
use crate::escape::unescape;
use crate::layout::chunk_size;
use crate::layout::chunkable;
use crate::layout::flat_contains;
use crate::layout::has_complex;
use crate::layout::render;
use crate::layout::render_chunked;
use crate::layout::render_inline;
use crate::layout::spaces;
use crate::value::is_container;
use crate::value::well_formed;
use crate::value::Json;
use crate::value::Member;

verus! {

/// No escaped character puts a raw newline into the output.
proof fn lemma_escape_char_no_newline(c: char)
    ensures
        forall|j: int| 0 <= j < escape_char(c).len() ==> escape_char(c)[j] != '\n',
{
}

/// No escaped string puts a raw newline into the output.
proof fn lemma_escape_seq_no_newline(s: Seq<char>)
    ensures
        forall|j: int| 0 <= j < escape_seq(s).len() ==> escape_seq(s)[j] != '\n',
    decreases s.len(),
{
    if s.len() > 0 {
        lemma_escape_seq_no_newline(s.drop_last());
        lemma_escape_char_no_newline(s.last());
        let pre = escape_seq(s.drop_last());
        let tail = escape_char(s.last());
        assert forall|j: int| 0 <= j < escape_seq(s).len() implies escape_seq(s)[j] != '\n' by {
            assert(escape_seq(s) == pre + tail);
            if j < pre.len() {
                assert(escape_seq(s)[j] == pre[j]);
            } else {
                assert(escape_seq(s)[j] == tail[j - pre.len()]);
            }
        }
    }
}

/// `escape_seq` taken apart at the front: the first character's escape,
/// then the escape of the rest.
proof fn lemma_escape_seq_front(s: Seq<char>)
    requires
        s.len() > 0,
    ensures
        escape_seq(s) == escape_char(s[0]) + escape_seq(s.drop_first()),
    decreases s.len(),
{
    if s.len() == 1 {
        assert(s.drop_last() =~= Seq::<char>::empty());
        assert(s.drop_first() =~= Seq::<char>::empty());
        assert(escape_seq(s) =~= escape_char(s[0]) + escape_seq(s.drop_first()));
    } else {
        lemma_escape_seq_front(s.drop_last());
        assert(s.drop_last().drop_first() =~= s.drop_first().drop_last());
        assert(s.drop_first().last() == s.last());
        assert(escape_seq(s) =~= escape_char(s[0]) + escape_seq(s.drop_first()));
    }
}

/// A `\u00..` escape decodes back to the control character it was
/// written for.
proof fn lemma_control_round_trip(c: char)
    requires
        (c as u32) < 32,
    ensures
        control_of(
            hex_digit(c as u32 as int / 16),
            hex_digit(c as u32 as int % 16),
        ) == c,
{
    let code = c as u32 as int;
    let h1 = hex_digit(code / 16);
    let h2 = hex_digit(code % 16);
    let m = code % 16;
    assert(0 <= m < 16);
    if code < 16 {
        assert(code / 16 == 0);
        assert(m == code);
        assert(h1 == '0');
        if m == 0 {
            assert(h2 == '0');
            assert(c == '\u{0}');
        } else if m == 1 {
            assert(h2 == '1');
            assert(c == '\u{1}');
        } else if m == 2 {
            assert(h2 == '2');
            assert(c == '\u{2}');
        } else if m == 3 {
            assert(h2 == '3');
            assert(c == '\u{3}');
        } else if m == 4 {
            assert(h2 == '4');
            assert(c == '\u{4}');
        } else if m == 5 {
            assert(h2 == '5');
            assert(c == '\u{5}');
        } else if m == 6 {
            assert(h2 == '6');
            assert(c == '\u{6}');
        } else if m == 7 {
            assert(h2 == '7');
            assert(c == '\u{7}');
        } else if m == 8 {
            assert(h2 == '8');
            assert(c == '\u{8}');
        } else if m == 9 {
            assert(h2 == '9');
            assert(c == '\u{9}');
        } else if m == 10 {
            assert(h2 == 'a');
            assert(c == '\u{a}');
        } else if m == 11 {
            assert(h2 == 'b');
            assert(c == '\u{b}');
        } else if m == 12 {
            assert(h2 == 'c');
            assert(c == '\u{c}');
        } else if m == 13 {
            assert(h2 == 'd');
            assert(c == '\u{d}');
        } else if m == 14 {
            assert(h2 == 'e');
            assert(c == '\u{e}');
        } else if m == 15 {
            assert(h2 == 'f');
            assert(c == '\u{f}');
        }
    } else {
        assert(code / 16 == 1);
        assert(m == code - 16);
        assert(h1 == '1');
        if m == 0 {
            assert(h2 == '0');
            assert(c == '\u{10}');
        } else if m == 1 {
            assert(h2 == '1');
            assert(c == '\u{11}');
        } else if m == 2 {
            assert(h2 == '2');
            assert(c == '\u{12}');
        } else if m == 3 {
            assert(h2 == '3');
            assert(c == '\u{13}');
        } else if m == 4 {
            assert(h2 == '4');
            assert(c == '\u{14}');
        } else if m == 5 {
            assert(h2 == '5');
            assert(c == '\u{15}');
        } else if m == 6 {
            assert(h2 == '6');
            assert(c == '\u{16}');
        } else if m == 7 {
            assert(h2 == '7');
            assert(c == '\u{17}');
        } else if m == 8 {
            assert(h2 == '8');
            assert(c == '\u{18}');
        } else if m == 9 {
            assert(h2 == '9');
            assert(c == '\u{19}');
        } else if m == 10 {
            assert(h2 == 'a');
            assert(c == '\u{1a}');
        } else if m == 11 {
            assert(h2 == 'b');
            assert(c == '\u{1b}');
        } else if m == 12 {
            assert(h2 == 'c');
            assert(c == '\u{1c}');
        } else if m == 13 {
            assert(h2 == 'd');
            assert(c == '\u{1d}');
        } else if m == 14 {
            assert(h2 == 'e');
            assert(c == '\u{1e}');
        } else if m == 15 {
            assert(h2 == 'f');
            assert(c == '\u{1f}');
        }
    }
    assert(control_of(h1, h2) == c);
}

/// Escaping loses nothing: reading the escaped text back gives the
/// original string, character for character.
pub proof fn lemma_escape_round_trip(s: Seq<char>)
    ensures
        unescape(escape_seq(s)) == s,
    decreases s.len(),
{
    if s.len() == 0 {
        assert(unescape(escape_seq(s)) =~= s);
    } else {
        lemma_escape_round_trip(s.drop_first());
        lemma_escape_seq_front(s);
        let c = s[0];
        let piece = escape_char(c);
        let r = escape_seq(s.drop_first());
        let t = piece + r;
        assert(escape_seq(s) == t);
        if c == '"' || c == '\\' || c == '\n' || c == '\r' || c == '\t' || c == '\u{8}' || c
            == '\u{c}' {
            assert(t[0] == '\\' && t[1] != 'u');
            assert(t.skip(2) =~= r);
            assert(named_of(t[1]) == c);
            assert(unescape(t) =~= seq![c] + s.drop_first());
            assert(seq![c] + s.drop_first() =~= s);
        } else if (c as u32) < 32 {
            assert(t[0] == '\\' && t[1] == 'u');
            let code = c as u32 as int;
            let h1 = hex_digit(code / 16);
            let h2 = hex_digit(code % 16);
            assert(t[4] == h1);
            assert(t[5] == h2);
            assert(t.skip(6) =~= r);
            lemma_control_round_trip(c);
            assert(control_of(h1, h2) == c);
            assert(unescape(t) =~= seq![c] + s.drop_first());
            assert(seq![c] + s.drop_first() =~= s);
        } else {
            assert(t[0] == c && c != '\\');
            assert(t.skip(1) =~= r);
            assert(unescape(t) =~= seq![c] + s.drop_first());
            assert(seq![c] + s.drop_first() =~= s);
        }
    }
}

/// A complex element (an object, or an array of more than three items)
/// puts the whole array into rows of one: the chunk width is 1, so each
/// element opens its own indented row and a newline closes it.
pub proof fn lemma_complex_element_rows(a: Seq<Json>, i: int, level: nat, path: Seq<char>, flat: Seq<Seq<char>>)
    requires
        has_complex(a),
        0 <= i < a.len(),
    ensures
        chunk_size(a) == 1,
        render_chunked(a, i, 1, level, path, flat) == spaces((level + 1) * 4) + render(
            a[i],
            level + 1,
            path,
            flat,
        ) + (if i < a.len() - 1 {
            seq![',', ' ']
        } else {
            Seq::<char>::empty()
        }) + seq!['\n'] + render_chunked(a, i + 1, 1, level, path, flat),
{
    assert(i % 1 == 0int);
    assert((i + 1) % 1 == 0int);
}

/// A rendered string scalar is its escaped text between quotes, and
/// reading the part between the quotes back yields the original string:
/// no information is lost in rendering it.
pub proof fn lemma_string_scalar_recoverable(s: String, level: nat, path: Seq<char>, flat: Seq<Seq<char>>)
    ensures
        render(Json::Str(s), level, path, flat) == seq!['"'] + escape_seq(s@) + seq!['"'],
        unescape(
            render(Json::Str(s), level, path, flat).subrange(
                1,
                render(Json::Str(s), level, path, flat).len() - 1,
            ),
        ) == s@,
{
    let t = render(Json::Str(s), level, path, flat);
    assert(t =~= seq!['"'] + escape_seq(s@) + seq!['"']);
    assert(t.subrange(1, t.len() - 1) =~= escape_seq(s@));
    lemma_escape_round_trip(s@);
}

/// A well-formed scalar renders without a newline: the literals `null`,
/// `true` and `false` have none, a number literal holds only number
/// characters, and a string is escaped before it is written.
proof fn lemma_scalar_no_newline(v: Json, level: nat, path: Seq<char>, flat: Seq<Seq<char>>)
    requires
        !is_container(v),
        well_formed(v),
    ensures
        forall|j: int|
            0 <= j < render(v, level, path, flat).len() ==> render(v, level, path, flat)[j]
                != '\n',
{
    match v {
        Json::Str(s) => {
            lemma_escape_seq_no_newline(s@);
            assert forall|j: int| 0 <= j < quoted(s@).len() implies quoted(s@)[j] != '\n' by {
                if 1 <= j < 1 + escape_seq(s@).len() {
                    assert(quoted(s@)[j] == escape_seq(s@)[j - 1]);
                }
            }
        },
        _ => {},
    }
}

/// A short array of well-formed scalars lays out on a single line: `[`,
/// the elements separated by `", "`, then `]`, with no newline anywhere
/// in the text.
pub proof fn lemma_inline_array_single_line(arr: Vec<Json>, level: nat, path: Seq<char>, flat: Seq<Seq<char>>)
    requires
        arr@.len() <= 10,
        forall|i: int| 0 <= i < arr@.len() ==> !is_container(#[trigger] arr@[i]),
        forall|i: int| 0 <= i < arr@.len() ==> well_formed(#[trigger] arr@[i]),
    ensures
        render(Json::Array(arr), level, path, flat) == seq!['['] + render_inline(
            arr@,
            0,
            level,
            path,
            flat,
        ) + seq![']'],
        forall|j: int|
            0 <= j < render(Json::Array(arr), level, path, flat).len() ==> render(
                Json::Array(arr),
                level,
                path,
                flat,
            )[j] != '\n',
{
    assert(!chunkable(arr@));
    lemma_inline_no_newline(arr@, 0, level, path, flat);
    let inner = render_inline(arr@, 0, level, path, flat);
    let whole = render(Json::Array(arr), level, path, flat);
    assert(whole == seq!['['] + inner + seq![']']);
    assert forall|j: int| 0 <= j < whole.len() implies whole[j] != '\n' by {
        if 1 <= j < 1 + inner.len() {
            assert(whole[j] == inner[j - 1]);
        }
    }
}

/// The inline layout of scalar elements holds no newline.
proof fn lemma_inline_no_newline(a: Seq<Json>, i: int, level: nat, path: Seq<char>, flat: Seq<Seq<char>>)
    requires
        forall|k: int| 0 <= k < a.len() ==> !is_container(#[trigger] a[k]),
        forall|k: int| 0 <= k < a.len() ==> well_formed(#[trigger] a[k]),
    ensures
        forall|j: int|
            0 <= j < render_inline(a, i, level, path, flat).len() ==> render_inline(
                a,
                i,
                level,
                path,
                flat,
            )[j] != '\n',
    decreases a.len() - i,
{
    if 0 <= i < a.len() {
        lemma_scalar_no_newline(a[i], level + 1, path, flat);
        lemma_inline_no_newline(a, i + 1, level, path, flat);
        let head = render(a[i], level + 1, path, flat);
        let sep: Seq<char> = if i < a.len() - 1 {
            seq![',', ' ']
        } else {
            Seq::empty()
        };
        let rest = render_inline(a, i + 1, level, path, flat);
        let whole = render_inline(a, i, level, path, flat);
        assert(whole == head + sep + rest);
        assert forall|j: int| 0 <= j < whole.len() implies whole[j] != '\n' by {
            if j < head.len() {
                assert(whole[j] == head[j]);
            } else if j < head.len() + sep.len() {
                assert(whole[j] == sep[j - head.len()]);
            } else {
                assert(whole[j] == rest[j - head.len() - sep.len()]);
            }
        }
    }
}

/// An empty array is never chunked and renders as `[]`.
pub proof fn lemma_empty_array(arr: Vec<Json>, level: nat, path: Seq<char>, flat: Seq<Seq<char>>)
    requires
        arr@.len() == 0,
    ensures
        render(Json::Array(arr), level, path, flat) == seq!['[', ']'],
{
    assert(!chunkable(arr@));
    assert(render(Json::Array(arr), level, path, flat) =~= seq!['[', ']']);
}

/// An empty object renders as `{`, a newline, the closing indentation
/// and `}` — or as `{  }` when its path is flattened — with no stray
/// comma in either form.
pub proof fn lemma_empty_object(ms: Vec<Member>, level: nat, path: Seq<char>, flat: Seq<Seq<char>>)
    requires
        ms@.len() == 0,
    ensures
        flat_contains(flat, path) ==> render(Json::Object(ms), level, path, flat) == seq![
            '{',
            ' ',
            ' ',
            '}',
        ],
        !flat_contains(flat, path) ==> render(Json::Object(ms), level, path, flat) == seq![
            '{',
            '\n',
        ] + spaces(level * 4) + seq!['}'],
{
    if flat_contains(flat, path) {
        assert(render(Json::Object(ms), level, path, flat) =~= seq!['{', ' ', ' ', '}']);
    } else {
        assert(render(Json::Object(ms), level, path, flat) =~= seq!['{', '\n'] + spaces(level * 4)
            + seq!['}']);
    }
}

} // verus!
