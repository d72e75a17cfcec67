//! The one-line preview of a note's markdown that the diary lists.
use vstd::prelude::*;

use crate::text::{str_chars, string_from_chars};

verus! {

/// Longest preview, in characters.
pub const SNIPPET_CHARS: usize = 120;

/// The pieces of `s` between newline characters (one piece when there is
/// none, an empty last piece after a final newline).
pub open spec fn split_newlines(s: Seq<char>) -> Seq<Seq<char>>
    decreases s.len(),
{
    if s.len() == 0 {
        seq![Seq::<char>::empty()]
    } else {
        let parts = split_newlines(s.drop_last());
        if s.last() == '\n' {
            parts.push(Seq::<char>::empty())
        } else {
            parts.update(parts.len() - 1, parts.last().push(s.last()))
        }
    }
}

/// A line without the carriage return that ended it.
pub open spec fn strip_cr(l: Seq<char>) -> Seq<char> {
    if l.len() > 0 && l.last() == '\r' {
        l.drop_last()
    } else {
        l
    }
}

/// The lines of a text as `str::lines` yields them: split at `\n` and at
/// `\r\n`, with no empty line after a final line ending.
pub open spec fn lines_spec(s: Seq<char>) -> Seq<Seq<char>> {
    let parts = split_newlines(s);
    let ended = parts.drop_last().map_values(|l: Seq<char>| strip_cr(l));
    if s.len() == 0 {
        Seq::empty()
    } else if s.last() == '\n' {
        ended
    } else {
        ended.push(parts.last())
    }
}

/// The markdown markers a preview drops from the start of a line.
pub open spec fn is_marker(c: char) -> bool {
    c == '#' || c == '-' || c == '*' || c == '>' || c == ' ' || c == '\t'
}

/// A line without its leading markers.
pub open spec fn trim_markers(l: Seq<char>) -> Seq<char>
    decreases l.len(),
{
    if l.len() > 0 && is_marker(l[0]) {
        trim_markers(l.skip(1))
    } else {
        l
    }
}

/// Lines joined with one space between each two.
pub open spec fn join_spaced(parts: Seq<Seq<char>>) -> Seq<char>
    decreases parts.len(),
{
    if parts.len() == 0 {
        Seq::empty()
    } else if parts.len() == 1 {
        parts[0]
    } else {
        join_spaced(parts.drop_last()) + seq![' '] + parts.last()
    }
}

/// The preview of a note: its lines without leading markdown markers,
/// joined with spaces, cut to the first 120 characters.
pub open spec fn snippet_spec(markdown: Seq<char>) -> Seq<char> {
    let joined = join_spaced(lines_spec(markdown).map_values(|l: Seq<char>| trim_markers(l)));
    if joined.len() <= SNIPPET_CHARS {
        joined
    } else {
        joined.take(SNIPPET_CHARS as int)
    }
}

pub open spec fn chars_views(s: Seq<Vec<char>>) -> Seq<Seq<char>> {
    s.map_values(|v: Vec<char>| v@)
}

proof fn lemma_split_newlines_len(s: Seq<char>)
    ensures
        split_newlines(s).len() >= 1,
    decreases s.len(),
{
    if s.len() > 0 {
        lemma_split_newlines_len(s.drop_last());
    }
}

/// The pieces of a text between newlines.
fn split_at_newlines(chars: &Vec<char>) -> (r: Vec<Vec<char>>)
    ensures
        chars_views(r@) == split_newlines(chars@),
        r@.len() >= 1,
{
    let mut parts: Vec<Vec<char>> = Vec::new();
    parts.push(Vec::new());
    assert(chars@.take(0) =~= Seq::<char>::empty());
    assert(chars_views(parts@) =~= split_newlines(chars@.take(0)));
    let mut i: usize = 0;
    while i < chars.len()
        invariant
            i <= chars.len(),
            parts@.len() >= 1,
            chars_views(parts@) == split_newlines(chars@.take(i as int)),
        decreases chars.len() - i,
    {
        let c = chars[i];
        let ghost before = chars_views(parts@);
        assert(chars@.take(i + 1).drop_last() =~= chars@.take(i as int));
        assert(chars@.take(i + 1).last() == c);
        if c == '\n' {
            parts.push(Vec::new());
            assert(chars_views(parts@) =~= before.push(Seq::<char>::empty()));
        } else {
            let last_index = parts.len() - 1;
            let mut last = parts.pop().unwrap();
            last.push(c);
            parts.push(last);
            assert(chars_views(parts@) =~= before.update(
                last_index as int,
                before.last().push(c),
            ));
        }
        i = i + 1;
    }
    assert(chars@.take(chars.len() as int) =~= chars@);
    parts
}

/// Appends a line, without its carriage return when `strip` says so, and
/// without its leading markers.
fn append_trimmed(out: &mut Vec<char>, line: &Vec<char>, strip: bool)
    ensures
        final(out)@ == old(out)@ + trim_markers(
            if strip {
                strip_cr(line@)
            } else {
                line@
            },
        ),
{
    let mut end = line.len();
    if strip && end > 0 && line[end - 1] == '\r' {
        end = end - 1;
    }
    let ghost whole = if strip {
        strip_cr(line@)
    } else {
        line@
    };
    assert(whole =~= line@.subrange(0, end as int));
    let mut start: usize = 0;
    while start < end && (line[start] == '#' || line[start] == '-' || line[start] == '*'
        || line[start] == '>' || line[start] == ' ' || line[start] == '\t')
        invariant
            start <= end <= line.len(),
            trim_markers(whole) == trim_markers(line@.subrange(start as int, end as int)),
        decreases end - start,
    {
        assert(line@.subrange(start as int, end as int).skip(1) =~= line@.subrange(
            start + 1,
            end as int,
        ));
        start = start + 1;
    }
    assert(trim_markers(line@.subrange(start as int, end as int)) == line@.subrange(
        start as int,
        end as int,
    ));
    let ghost prefix = out@;
    let mut k = start;
    while k < end
        invariant
            start <= k <= end <= line.len(),
            out@ == prefix + line@.subrange(start as int, k as int),
        decreases end - k,
    {
        out.push(line[k]);
        assert(out@ =~= prefix + line@.subrange(start as int, k + 1));
        k = k + 1;
    }
}

/// The one-line preview of a note's markdown: its lines without leading
/// `#`, `-`, `*`, `>`, spaces and tabs, joined with spaces, cut to 120
/// characters.
pub fn snippet(markdown: &str) -> (r: String)
    ensures
        r@ == snippet_spec(markdown@),
{
    let chars = str_chars(markdown);
    let parts = split_at_newlines(&chars);
    let ghost pv = chars_views(parts@);
    let ghost lines = lines_spec(markdown@).map_values(|l: Seq<char>| trim_markers(l));
    let ended_with_newline = chars.len() > 0 && chars[chars.len() - 1] == '\n';
    let count: usize = if chars.len() == 0 {
        0
    } else if ended_with_newline {
        parts.len() - 1
    } else {
        parts.len()
    };
    assert(lines.len() == count);
    let mut out: Vec<char> = Vec::new();
    let mut k: usize = 0;
    while k < count
        invariant
            k <= count,
            count == lines.len(),
            count <= parts@.len(),
            pv == chars_views(parts@),
            pv == split_newlines(chars@),
            chars@ == markdown@,
            lines == lines_spec(markdown@).map_values(|l: Seq<char>| trim_markers(l)),
            ended_with_newline == (chars@.len() > 0 && chars@.last() == '\n'),
            out@ == join_spaced(lines.take(k as int)),
        decreases count - k,
    {
        let ghost before = out@;
        if k > 0 {
            out.push(' ');
        }
        let strip = k + 1 < parts.len();
        append_trimmed(&mut out, &parts[k], strip);
        proof {
            assert(parts@[k as int]@ == pv[k as int]);
            assert(lines[k as int] == trim_markers(
                if strip {
                    strip_cr(pv[k as int])
                } else {
                    pv[k as int]
                },
            ));
            assert(lines.take(k + 1).drop_last() =~= lines.take(k as int));
            if k == 0 {
                assert(out@ =~= join_spaced(lines.take(1)));
            } else {
                assert(out@ =~= join_spaced(lines.take(k + 1)));
            }
        }
        k = k + 1;
    }
    assert(lines.take(count as int) =~= lines);
    let cut = if out.len() <= SNIPPET_CHARS {
        out.len()
    } else {
        SNIPPET_CHARS
    };
    let r = string_from_chars(&out, 0, cut);
    assert(out@.subrange(0, cut as int) =~= snippet_spec(markdown@));
    r
}

} // verus!
