use vstd::prelude::*;
use vstd::string::*;

verus! {

/// The arguments a run works from: the source path, an optional output
/// path, and the optional flatten set of dotted property paths.
pub struct CLI {
    /// Path of the JSON file to read.
    pub source: String,
    /// Path to write to; when absent the name is derived from `source`.
    pub output: Option<String>,
    /// Property paths whose objects are rendered on a single line.
    pub flat: Option<Vec<String>>,
}

/// Position of the last occurrence of `c` in `s`, or -1 when absent.
pub open spec fn last_index_of_char(s: Seq<char>, c: char) -> int
    decreases s.len(),
{
    if s.len() == 0 {
        -1
    } else if s.last() == c {
        s.len() - 1
    } else {
        last_index_of_char(s.drop_last(), c)
    }
}

/// The suffix spliced into a derived output name.
pub open spec fn pretty_suffix() -> Seq<char> {
    seq!['-', 'p', 'r', 'e', 't', 't', 'y']
}

/// The output name derived from a source path: `-pretty` goes between
/// the file name's stem and its extension. Only the part after the last
/// `/` is the file name, only the part after its last `.` is the
/// extension, and a leading `.` opens a hidden name, not an extension.
pub open spec fn derived_name(s: Seq<char>) -> Seq<char> {
    let cut = last_index_of_char(s, '/') + 1;
    let dir = s.subrange(0, cut);
    let name = s.subrange(cut, s.len() as int);
    let d = last_index_of_char(name, '.');
    let stem = if d > 0 {
        name.subrange(0, d)
    } else {
        name
    };
    let ext = if d > 0 {
        name.subrange(d + 1, name.len() as int)
    } else {
        Seq::<char>::empty()
    };
    if ext.len() > 0 {
        dir + stem + pretty_suffix() + seq!['.'] + ext
    } else {
        dir + stem + pretty_suffix()
    }
}

/// Position of the last occurrence of `c` in `s`, if any.
fn last_pos(s: &str, c: char) -> (r: Option<usize>)
    ensures
        match r {
            Some(j) => j < s@.len() && last_index_of_char(s@, c) == j as int,
            None => last_index_of_char(s@, c) == -1,
        },
{
    let n = s.unicode_len();
    let mut i: usize = 0;
    let mut found = false;
    let mut pos: usize = 0;
    while i < n
        invariant
            i <= n,
            n == s@.len(),
            found ==> pos < i && last_index_of_char(s@.subrange(0, i as int), c) == pos as int,
            !found ==> last_index_of_char(s@.subrange(0, i as int), c) == -1,
        decreases n - i,
    {
        let ch = s.get_char(i);
        proof {
            assert(s@.subrange(0, (i + 1) as int).drop_last() =~= s@.subrange(0, i as int));
            assert(s@.subrange(0, (i + 1) as int).last() == s@[i as int]);
        }
        if ch == c {
            found = true;
            pos = i;
        }
        i += 1;
    }
    proof {
        assert(s@.subrange(0, n as int) =~= s@);
    }
    if found {
        Some(pos)
    } else {
        None
    }
}

/// Builds the derived output name for a source path.
fn derive_output_name(s: &str) -> (r: String)
    ensures
        r@ == derived_name(s@),
{
    proof {
        reveal_strlit("-pretty");
        reveal_strlit(".");
    }
    let n = s.unicode_len();
    let cut: usize = match last_pos(s, '/') {
        Some(j) => j + 1,
        None => 0,
    };
    let dir = s.substring_char(0, cut);
    let name = s.substring_char(cut, n);
    let m = name.unicode_len();
    let mut out = dir.to_owned();
    match last_pos(name, '.') {
        Some(j) => {
            if j > 0 {
                let stem = name.substring_char(0, j);
                out.append(stem);
                out.append("-pretty");
                if j + 1 < m {
                    out.append(".");
                    let ext = name.substring_char(j + 1, m);
                    out.append(ext);
                }
                proof {
                    assert("-pretty"@ =~= pretty_suffix());
                    assert("."@ =~= seq!['.']);
                    assert(out@ =~= derived_name(s@));
                }
            } else {
                out.append(name);
                out.append("-pretty");
                proof {
                    assert("-pretty"@ =~= pretty_suffix());
                    assert(out@ =~= derived_name(s@));
                }
            }
        },
        None => {
            out.append(name);
            out.append("-pretty");
            proof {
                assert("-pretty"@ =~= pretty_suffix());
                assert(out@ =~= derived_name(s@));
            }
        },
    }
    out
}

/// The path the output file is written to: the one named on the command
/// line when given, else the name derived from the source path.
pub fn pretty_name(cli: &CLI) -> (r: String)
    ensures
        match cli.output {
            Some(o) => r@ == o@,
            None => r@ == derived_name(cli.source@),
        },
{
    match &cli.output {
        Some(o) => o.clone(),
        None => derive_output_name(cli.source.as_str()),
    }
}

} // verus!
