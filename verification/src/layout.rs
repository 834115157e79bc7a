use vstd::prelude::*;
use vstd::string::*;

use crate::escape::push_char;
use crate::escape::push_quoted;
use crate::escape::quoted;
use crate::value::height_elems;
use crate::value::height_members;
use crate::value::height_of;
use crate::value::is_container;
use crate::value::value_is_container;
use crate::value::Json;
use crate::value::Member;

verus! {

/// `n` spaces of indentation.
pub open spec fn spaces(n: nat) -> Seq<char>
    decreases n,
{
    if n == 0 {
        Seq::empty()
    } else {
        spaces((n - 1) as nat).push(' ')
    }
}

/// The views of the flatten set's entries.
pub open spec fn path_views(flat: Seq<String>) -> Seq<Seq<char>> {
    Seq::new(flat.len(), |i: int| flat[i]@)
}

/// Whether the flatten set holds exactly this property path.
pub open spec fn flat_contains(flat: Seq<Seq<char>>, path: Seq<char>) -> bool {
    exists|i: int| 0 <= i < flat.len() && flat[i] == path
}

/// The property path of a child reached through `key`: the key itself at
/// the root, and `path.key` below it. Array traversal never extends the
/// path, so this applies to object members only.
pub open spec fn extend_path(path: Seq<char>, key: Seq<char>) -> Seq<char> {
    if path.len() == 0 {
        key
    } else {
        path + seq!['.'] + key
    }
}

/// An array is laid out in chunked rows when it is long (more than ten
/// elements) or holds an array or object element; otherwise it stays on
/// one line.
pub open spec fn chunkable(a: Seq<Json>) -> bool {
    a.len() > 10 || exists|i: int| 0 <= i < a.len() && is_container(a[i])
}

/// A complex element forces one element per row: any object, or any
/// array of more than three items.
pub open spec fn is_complex(v: Json) -> bool {
    match v {
        Json::Object(_) => true,
        Json::Array(items) => items@.len() > 3,
        _ => false,
    }
}

pub open spec fn has_complex(a: Seq<Json>) -> bool {
    exists|i: int| 0 <= i < a.len() && is_complex(a[i])
}

pub open spec fn is_array(v: Json) -> bool {
    match v {
        Json::Array(_) => true,
        _ => false,
    }
}

pub open spec fn has_array(a: Seq<Json>) -> bool {
    exists|i: int| 0 <= i < a.len() && is_array(a[i])
}

/// Row width of a chunked array: one element per row when some element
/// is complex, five when some element is an array, ten otherwise.
pub open spec fn chunk_size(a: Seq<Json>) -> int {
    if has_complex(a) {
        1
    } else if has_array(a) {
        5
    } else {
        10
    }
}

/// The pretty-printed text of a value at nesting level `level`, reached
/// along property path `path`, with `flat` the set of paths whose
/// objects are laid out on one line.
pub open spec fn render(v: Json, level: nat, path: Seq<char>, flat: Seq<Seq<char>>) -> Seq<char>
    decreases v, 0int,
{
    match v {
        Json::Null => seq!['n', 'u', 'l', 'l'],
        Json::Bool(b) => if b {
            seq!['t', 'r', 'u', 'e']
        } else {
            seq!['f', 'a', 'l', 's', 'e']
        },
        Json::Number(s) => s@,
        Json::Str(s) => quoted(s@),
        Json::Array(arr) => if chunkable(arr@) {
            seq!['[', '\n'] + render_chunked(arr@, 0, chunk_size(arr@), level, path, flat)
                + spaces(level * 4) + seq![']']
        } else {
            seq!['['] + render_inline(arr@, 0, level, path, flat) + seq![']']
        },
        Json::Object(mem) => if flat_contains(flat, path) {
            seq!['{', ' '] + render_members(mem@, 0, level, path, flat, true) + seq![' ', '}']
        } else {
            seq!['{', '\n'] + render_members(mem@, 0, level, path, flat, false) + spaces(level * 4)
                + seq!['}']
        },
    }
}

/// The inline layout of `a[i..]`: elements separated by `", "`, the
/// separator after every element but the array's last.
pub open spec fn render_inline(a: Seq<Json>, i: int, level: nat, path: Seq<char>, flat: Seq<Seq<char>>) -> Seq<char>
    decreases a, a.len() - i,
{
    if i < 0 || i >= a.len() {
        Seq::empty()
    } else {
        render(a[i], level + 1, path, flat)
            + (if i < a.len() - 1 { seq![',', ' '] } else { Seq::empty() })
            + render_inline(a, i + 1, level, path, flat)
    }
}

/// The chunked layout of `a[i..]` in rows of `c` elements: indentation
/// opens a row, `", "` follows every element but the array's last (also
/// across row boundaries), and a newline closes each row.
pub open spec fn render_chunked(a: Seq<Json>, i: int, c: int, level: nat, path: Seq<char>, flat: Seq<Seq<char>>) -> Seq<char>
    decreases a, a.len() - i,
{
    if i < 0 || i >= a.len() || c <= 0 {
        Seq::empty()
    } else {
        (if i % c == 0 { spaces((level + 1) * 4) } else { Seq::empty() })
            + render(a[i], level + 1, path, flat)
            + (if i < a.len() - 1 { seq![',', ' '] } else { Seq::empty() })
            + (if (i + 1) % c == 0 || i + 1 == a.len() { seq!['\n'] } else { Seq::empty() })
            + render_chunked(a, i + 1, c, level, path, flat)
    }
}

/// The layout of the members `ms[i..]` of an object: each key quoted and
/// followed by `": "` and its value, rendered along the extended path;
/// `", "` after every member but the last. A flattened object writes its
/// members on one line; any other object indents each member and closes
/// its line with a newline.
pub open spec fn render_members(ms: Seq<Member>, i: int, level: nat, path: Seq<char>, flat: Seq<Seq<char>>, flatten: bool) -> Seq<char>
    decreases ms, ms.len() - i,
{
    if i < 0 || i >= ms.len() {
        Seq::empty()
    } else {
        (if flatten { Seq::empty() } else { spaces((level + 1) * 4) })
            + quoted(ms[i].key@) + seq![':', ' ']
            + render(ms[i].value, level + 1, extend_path(path, ms[i].key@), flat)
            + (if i < ms.len() - 1 { seq![',', ' '] } else { Seq::empty() })
            + (if flatten { Seq::empty() } else { seq!['\n'] })
            + render_members(ms, i + 1, level, path, flat, flatten)
    }
}

/// The whole document's text: the root renders at level zero with an
/// empty property path.
pub open spec fn rendered(v: Json, flat: Seq<Seq<char>>) -> Seq<char> {
    render(v, 0, Seq::empty(), flat)
}

/// Appends `n` spaces.
fn push_spaces(out: &mut String, n: usize)
    ensures
        final(out)@ == old(out)@ + spaces(n as nat),
{
    let mut i: usize = 0;
    while i < n
        invariant
            i <= n,
            out@ == old(out)@ + spaces(i as nat),
        decreases n - i,
    {
        push_char(out, ' ');
        proof {
            assert(old(out)@ + spaces(i as nat).push(' ') =~= (old(out)@ + spaces(
                i as nat,
            )).push(' '));
        }
        i += 1;
    }
}

/// Whether any element of `a` is an array or an object.
fn any_container(a: &Vec<Json>) -> (r: bool)
    ensures
        r == exists|i: int| 0 <= i < a@.len() && is_container(a@[i]),
{
    let n = a.len();
    let mut i: usize = 0;
    while i < n
        invariant
            i <= n,
            n == a@.len(),
            forall|k: int| 0 <= k < i ==> !is_container(a@[k]),
        decreases n - i,
    {
        if value_is_container(&a[i]) {
            return true;
        }
        i += 1;
    }
    false
}

/// Row width for a chunked array, by the three-tier rule: 1 when some
/// element is an object or an array of more than three items, else 5
/// when some element is an array, else 10.
fn chunk_width(a: &Vec<Json>) -> (c: usize)
    ensures
        c as int == chunk_size(a@),
        1 <= c <= 10,
{
    let n = a.len();
    let mut i: usize = 0;
    let mut complex = false;
    let mut arrays = false;
    while i < n
        invariant
            i <= n,
            n == a@.len(),
            complex == exists|k: int| 0 <= k < i && is_complex(a@[k]),
            arrays == exists|k: int| 0 <= k < i && is_array(a@[k]),
        decreases n - i,
    {
        match &a[i] {
            Json::Object(_) => {
                proof {
                    assert(is_complex(a@[i as int]));
                }
                complex = true;
            },
            Json::Array(items) => {
                proof {
                    assert(is_array(a@[i as int]));
                }
                arrays = true;
                if items.len() > 3 {
                    proof {
                        assert(is_complex(a@[i as int]));
                    }
                    complex = true;
                }
            },
            _ => {},
        }
        i += 1;
    }
    if complex {
        1
    } else if arrays {
        5
    } else {
        10
    }
}

/// Whether the flatten set holds exactly this path.
fn flatten_match(flat: &Vec<String>, path: &String) -> (r: bool)
    ensures
        r == flat_contains(path_views(flat@), path@),
{
    let n = flat.len();
    let mut i: usize = 0;
    while i < n
        invariant
            i <= n,
            n == flat@.len(),
            forall|k: int| 0 <= k < i ==> path_views(flat@)[k] != path@,
        decreases n - i,
    {
        if flat[i] == *path {
            proof {
                assert(path_views(flat@)[i as int] == path@);
            }
            return true;
        }
        i += 1;
    }
    false
}

/// Appends the pretty-printed text of `v`, as `render` gives it.
pub fn render_value(v: &Json, level: usize, path: &String, flat: &Vec<String>, out: &mut String)
    requires
        (level + height_of(*v)) * 4 <= usize::MAX,
    ensures
        final(out)@ == old(out)@ + render(*v, level as nat, path@, path_views(flat@)),
    decreases *v, 0int,
{
    match v {
        Json::Null => {
            push_char(out, 'n');
            push_char(out, 'u');
            push_char(out, 'l');
            push_char(out, 'l');
            proof {
                assert(final(out)@ =~= old(out)@ + seq!['n', 'u', 'l', 'l']);
            }
        },
        Json::Bool(b) => {
            if *b {
                push_char(out, 't');
                push_char(out, 'r');
                push_char(out, 'u');
                push_char(out, 'e');
                proof {
                    assert(final(out)@ =~= old(out)@ + seq!['t', 'r', 'u', 'e']);
                }
            } else {
                push_char(out, 'f');
                push_char(out, 'a');
                push_char(out, 'l');
                push_char(out, 's');
                push_char(out, 'e');
                proof {
                    assert(final(out)@ =~= old(out)@ + seq!['f', 'a', 'l', 's', 'e']);
                }
            }
        },
        Json::Number(s) => {
            out.append(s.as_str());
        },
        Json::Str(s) => {
            push_quoted(out, s.as_str());
        },
        Json::Array(arr) => {
            let chunked = arr.len() > 10 || any_container(arr);
            push_char(out, '[');
            if chunked {
                push_char(out, '\n');
                let c = chunk_width(arr);
                render_chunked_from(arr, 0, c, level, path, flat, out);
                push_spaces(out, level * 4);
                push_char(out, ']');
                proof {
                    assert(final(out)@ =~= old(out)@ + render(
                        *v,
                        level as nat,
                        path@,
                        path_views(flat@),
                    ));
                }
            } else {
                render_inline_from(arr, 0, level, path, flat, out);
                push_char(out, ']');
                proof {
                    assert(final(out)@ =~= old(out)@ + render(
                        *v,
                        level as nat,
                        path@,
                        path_views(flat@),
                    ));
                }
            }
        },
        Json::Object(members) => {
            let flatten = flatten_match(flat, path);
            push_char(out, '{');
            if flatten {
                push_char(out, ' ');
            } else {
                push_char(out, '\n');
            }
            render_members_from(members, 0, level, path, flat, flatten, out);
            if flatten {
                push_char(out, ' ');
                push_char(out, '}');
            } else {
                push_spaces(out, level * 4);
                push_char(out, '}');
            }
            proof {
                assert(final(out)@ =~= old(out)@ + render(
                    *v,
                    level as nat,
                    path@,
                    path_views(flat@),
                ));
            }
        },
    }
}

/// Appends the inline layout of `a[i..]`.
fn render_inline_from(a: &Vec<Json>, i: usize, level: usize, path: &String, flat: &Vec<String>, out: &mut String)
    requires
        i <= a@.len(),
        (level + 1 + height_elems(a@, i as int)) * 4 <= usize::MAX,
    ensures
        final(out)@ == old(out)@ + render_inline(a@, i as int, level as nat, path@, path_views(flat@)),
    decreases *a, a@.len() - i,
{
    if i < a.len() {
        proof {
            assert(height_elems(a@, i as int) >= height_of(a@[i as int]));
            assert(height_elems(a@, i as int) >= height_elems(a@, i as int + 1));
        }
        render_value(&a[i], level + 1, path, flat, out);
        if i < a.len() - 1 {
            push_char(out, ',');
            push_char(out, ' ');
        }
        render_inline_from(a, i + 1, level, path, flat, out);
        proof {
            assert(final(out)@ =~= old(out)@ + render_inline(
                a@,
                i as int,
                level as nat,
                path@,
                path_views(flat@),
            ));
        }
    }
}

/// Appends the chunked layout of `a[i..]` in rows of `c` elements.
fn render_chunked_from(a: &Vec<Json>, i: usize, c: usize, level: usize, path: &String, flat: &Vec<String>, out: &mut String)
    requires
        i <= a@.len(),
        1 <= c,
        (level + 1 + height_elems(a@, i as int)) * 4 <= usize::MAX,
    ensures
        final(out)@ == old(out)@ + render_chunked(a@, i as int, c as int, level as nat, path@, path_views(flat@)),
    decreases *a, a@.len() - i,
{
    if i < a.len() {
        proof {
            assert(height_elems(a@, i as int) >= height_of(a@[i as int]));
            assert(height_elems(a@, i as int) >= height_elems(a@, i as int + 1));
        }
        if i % c == 0 {
            push_spaces(out, (level + 1) * 4);
        }
        render_value(&a[i], level + 1, path, flat, out);
        if i < a.len() - 1 {
            push_char(out, ',');
            push_char(out, ' ');
        }
        if (i + 1) % c == 0 || i + 1 == a.len() {
            push_char(out, '\n');
        }
        render_chunked_from(a, i + 1, c, level, path, flat, out);
        proof {
            assert(final(out)@ =~= old(out)@ + render_chunked(
                a@,
                i as int,
                c as int,
                level as nat,
                path@,
                path_views(flat@),
            ));
        }
    }
}

/// Appends the layout of the members `ms[i..]`.
fn render_members_from(ms: &Vec<Member>, i: usize, level: usize, path: &String, flat: &Vec<String>, flatten: bool, out: &mut String)
    requires
        i <= ms@.len(),
        (level + 1 + height_members(ms@, i as int)) * 4 <= usize::MAX,
    ensures
        final(out)@ == old(out)@ + render_members(ms@, i as int, level as nat, path@, path_views(flat@), flatten),
    decreases *ms, ms@.len() - i,
{
    if i < ms.len() {
        proof {
            assert(height_members(ms@, i as int) >= height_of(ms@[i as int].value));
            assert(height_members(ms@, i as int) >= height_members(ms@, i as int + 1));
        }
        let m = &ms[i];
        if !flatten {
            push_spaces(out, (level + 1) * 4);
        }
        push_quoted(out, m.key.as_str());
        push_char(out, ':');
        push_char(out, ' ');
        let mut child = path.clone();
        if !child.as_str().is_empty() {
            push_char(&mut child, '.');
        }
        child.append(m.key.as_str());
        proof {
            assert(child@ =~= extend_path(path@, m.key@));
        }
        render_value(&m.value, level + 1, &child, flat, out);
        if i < ms.len() - 1 {
            push_char(out, ',');
            push_char(out, ' ');
        }
        if !flatten {
            push_char(out, '\n');
        }
        render_members_from(ms, i + 1, level, path, flat, flatten, out);
        proof {
            assert(final(out)@ =~= old(out)@ + render_members(
                ms@,
                i as int,
                level as nat,
                path@,
                path_views(flat@),
                flatten,
            ));
        }
    }
}

/// The pretty-printed text of a whole document: the root value rendered
/// at level zero with an empty property path, under the flatten set
/// `flat`.
pub fn render_json(v: &Json, flat: &Vec<String>) -> (out: String)
    requires
        height_of(*v) * 4 <= usize::MAX,
    ensures
        out@ == rendered(*v, path_views(flat@)),
{
    let mut out = String::new();
    let path = String::new();
    render_value(v, 0, &path, flat, &mut out);
    proof {
        assert(out@ =~= rendered(*v, path_views(flat@)));
    }
    out
}

} // verus!
