//! Rendering a grid of cells into markup-safe lines.
//!
//! Each row is cut into consecutive chunks of at most three cells with fixed
//! roles: a key wrapped in asterisk emphasis, a value left verbatim, and an
//! annotation wrapped in underscore emphasis.  A cell that is empty or that
//! already begins with a code-span delimiter opts out of emphasis: the
//! renderer trusts a caller that chose code formatting, since the dialect
//! does not nest emphasis inside code spans.  Blank segments are dropped,
//! surviving segments are joined with `" : "`, rows with blank lines, and
//! the result is emitted through the pre-escaped print path.

use crate::chars::{append_chars, chars_of, string_of};
use crate::collector::{logged_entry, LogCollector};
use vstd::prelude::*;

verus! {

/// A cell beginning with a backtick is taken as already code-formatted.
pub open spec fn is_preformatted(cell: Seq<char>) -> bool {
    cell.len() > 0 && cell[0] == '`'
}

/// The key cell of a chunk: wrapped in asterisk emphasis unless it is empty
/// or already code-formatted.
pub open spec fn keyed(cell: Seq<char>) -> Seq<char> {
    if cell.len() == 0 || is_preformatted(cell) {
        cell
    } else {
        seq!['*'] + cell + seq!['*']
    }
}

/// The annotation cell of a chunk: wrapped in underscore emphasis unless it
/// is empty or already code-formatted.
pub open spec fn annotated(cell: Seq<char>) -> Seq<char> {
    if cell.len() == 0 || is_preformatted(cell) {
        cell
    } else {
        seq!['_'] + cell + seq!['_']
    }
}

/// A Unicode white-space character, the set `str::trim` removes.
pub open spec fn is_space(c: char) -> bool {
    c == ' ' || c == '\u{9}' || c == '\u{a}' || c == '\u{b}' || c == '\u{c}' || c == '\u{d}'
        || c == '\u{85}' || c == '\u{a0}' || c == '\u{1680}' || c == '\u{2000}' || c == '\u{2001}'
        || c == '\u{2002}' || c == '\u{2003}' || c == '\u{2004}' || c == '\u{2005}'
        || c == '\u{2006}' || c == '\u{2007}' || c == '\u{2008}' || c == '\u{2009}'
        || c == '\u{200a}' || c == '\u{2028}' || c == '\u{2029}' || c == '\u{202f}'
        || c == '\u{205f}' || c == '\u{3000}'
}

/// A segment survives when it holds at least one non-white-space character.
pub open spec fn has_visible_char(seg: Seq<char>) -> bool {
    exists|i: int| 0 <= i < seg.len() && !is_space(seg[i])
}

/// The role strings of one row, flattened across its chunks of three; cells
/// missing from an incomplete final chunk count as empty.
pub open spec fn row_segments(row: Seq<Seq<char>>) -> Seq<Seq<char>>
    decreases row.len(),
{
    if row.len() == 0 {
        Seq::empty()
    } else {
        let key = keyed(row[0]);
        let value = if row.len() >= 2 {
            row[1]
        } else {
            Seq::<char>::empty()
        };
        let note = if row.len() >= 3 {
            annotated(row[2])
        } else {
            Seq::<char>::empty()
        };
        let rest = if row.len() > 3 {
            row.skip(3)
        } else {
            Seq::<Seq<char>>::empty()
        };
        seq![key, value, note] + row_segments(rest)
    }
}

/// The segments that survive the blank filter, in order.
pub open spec fn surviving(segs: Seq<Seq<char>>) -> Seq<Seq<char>>
    decreases segs.len(),
{
    if segs.len() == 0 {
        Seq::empty()
    } else if has_visible_char(segs[0]) {
        seq![segs[0]] + surviving(segs.drop_first())
    } else {
        surviving(segs.drop_first())
    }
}

/// `parts` joined with `sep` between consecutive parts.
pub open spec fn joined(parts: Seq<Seq<char>>, sep: Seq<char>) -> Seq<char>
    decreases parts.len(),
{
    if parts.len() == 0 {
        Seq::empty()
    } else if parts.len() == 1 {
        parts[0]
    } else {
        parts[0] + sep + joined(parts.drop_first(), sep)
    }
}

/// The separator between surviving segments of a row.
pub open spec fn seg_sep() -> Seq<char> {
    seq![' ', ':', ' ']
}

/// The blank line between rendered rows.
pub open spec fn row_sep() -> Seq<char> {
    seq!['\n', '\n']
}

/// One row rendered: roles wrapped, blank segments dropped, the rest joined
/// with `" : "`.
pub open spec fn rendered_row(row: Seq<Seq<char>>) -> Seq<char> {
    joined(surviving(row_segments(row)), seg_sep())
}

/// The whole grid rendered: rows joined by blank lines.
pub open spec fn rendered_table(rows: Seq<Seq<Seq<char>>>) -> Seq<char>
    decreases rows.len(),
{
    if rows.len() == 0 {
        Seq::empty()
    } else if rows.len() == 1 {
        rendered_row(rows[0])
    } else {
        rendered_row(rows[0]) + row_sep() + rendered_table(rows.drop_first())
    }
}

/// The grid of character sequences that a vector of `String` rows denotes.
pub open spec fn table_view(rows: &Vec<Vec<String>>) -> Seq<Seq<Seq<char>>> {
    rows@.map_values(|row: Vec<String>| row@.map_values(|cell: String| cell@))
}

proof fn lemma_surviving_push(segs: Seq<Seq<char>>, s: Seq<char>)
    ensures
        surviving(segs.push(s)) == if has_visible_char(s) {
            surviving(segs).push(s)
        } else {
            surviving(segs)
        },
    decreases segs.len(),
{
    if segs.len() == 0 {
        assert(segs.push(s)[0] == s);
        assert(segs.push(s).drop_first() =~= Seq::<Seq<char>>::empty());
        if has_visible_char(s) {
            assert(seq![s] + surviving(Seq::<Seq<char>>::empty()) =~= surviving(segs).push(s));
        }
    } else {
        assert(segs.push(s).drop_first() =~= segs.drop_first().push(s));
        assert(segs.push(s)[0] == segs[0]);
        lemma_surviving_push(segs.drop_first(), s);
        if has_visible_char(s) {
            if has_visible_char(segs[0]) {
                assert(surviving(segs.push(s)) =~= surviving(segs).push(s));
            } else {
                assert(surviving(segs.push(s)) =~= surviving(segs).push(s));
            }
        } else {
            if has_visible_char(segs[0]) {
                assert(surviving(segs.push(s)) =~= surviving(segs));
            }
        }
    }
}

proof fn lemma_joined_push(parts: Seq<Seq<char>>, p: Seq<char>, sep: Seq<char>)
    ensures
        joined(parts.push(p), sep) == if parts.len() == 0 {
            p
        } else {
            joined(parts, sep) + sep + p
        },
    decreases parts.len(),
{
    if parts.len() == 0 {
        assert(parts.push(p)[0] == p);
    } else if parts.len() == 1 {
        assert(parts.push(p)[0] == parts[0]);
        assert(parts.push(p).drop_first() =~= seq![p]);
        assert(joined(seq![p], sep) == p);
        assert(joined(parts.push(p), sep) =~= joined(parts, sep) + sep + p);
    } else {
        assert(parts.push(p)[0] == parts[0]);
        assert(parts.push(p).drop_first() =~= parts.drop_first().push(p));
        lemma_joined_push(parts.drop_first(), p, sep);
        assert(joined(parts.push(p), sep) =~= joined(parts, sep) + sep + p);
    }
}

proof fn lemma_rendered_table_push(rows: Seq<Seq<Seq<char>>>, row: Seq<Seq<char>>)
    ensures
        rendered_table(rows.push(row)) == if rows.len() == 0 {
            rendered_row(row)
        } else {
            rendered_table(rows) + row_sep() + rendered_row(row)
        },
    decreases rows.len(),
{
    if rows.len() == 0 {
        assert(rows.push(row)[0] == row);
    } else if rows.len() == 1 {
        assert(rows.push(row)[0] == rows[0]);
        assert(rows.push(row).drop_first() =~= seq![row]);
        assert(rendered_table(seq![row]) == rendered_row(row));
    } else {
        assert(rows.push(row)[0] == rows[0]);
        assert(rows.push(row).drop_first() =~= rows.drop_first().push(row));
        lemma_rendered_table_push(rows.drop_first(), row);
        assert(rendered_table(rows.push(row)) =~= rendered_table(rows) + row_sep()
            + rendered_row(row));
    }
}

fn is_space_exec(c: char) -> (r: bool)
    ensures
        r == is_space(c),
{
    c == ' ' || c == '\u{9}' || c == '\u{a}' || c == '\u{b}' || c == '\u{c}' || c == '\u{d}'
        || c == '\u{85}' || c == '\u{a0}' || c == '\u{1680}' || c == '\u{2000}' || c == '\u{2001}'
        || c == '\u{2002}' || c == '\u{2003}' || c == '\u{2004}' || c == '\u{2005}'
        || c == '\u{2006}' || c == '\u{2007}' || c == '\u{2008}' || c == '\u{2009}'
        || c == '\u{200a}' || c == '\u{2028}' || c == '\u{2029}' || c == '\u{202f}'
        || c == '\u{205f}' || c == '\u{3000}'
}

/// Whether `seg` holds a character that is not white space.
fn seg_has_visible(seg: &Vec<char>) -> (r: bool)
    ensures
        r == has_visible_char(seg@),
{
    let mut i: usize = 0;
    while i < seg.len()
        invariant
            i <= seg@.len(),
            forall|k: int| 0 <= k < i ==> is_space(seg@[k]),
        decreases seg@.len() - i,
    {
        if !is_space_exec(seg[i]) {
            assert(!is_space(seg@[i as int]));
            return true;
        }
        i = i + 1;
    }
    false
}

/// The key cell, wrapped as `keyed` describes.
fn wrap_key(cell: &String) -> (r: Vec<char>)
    ensures
        r@ == keyed(cell@),
{
    let cs = chars_of(cell.as_str());
    if cs.len() == 0 {
        return cs;
    }
    if cs[0] == '`' {
        return cs;
    }
    let mut out: Vec<char> = Vec::new();
    out.push('*');
    append_chars(&mut out, &cs);
    out.push('*');
    proof {
        assert(out@ =~= seq!['*'] + cell@ + seq!['*']);
    }
    out
}

/// The annotation cell, wrapped as `annotated` describes.
fn wrap_note(cell: &String) -> (r: Vec<char>)
    ensures
        r@ == annotated(cell@),
{
    let cs = chars_of(cell.as_str());
    if cs.len() == 0 {
        return cs;
    }
    if cs[0] == '`' {
        return cs;
    }
    let mut out: Vec<char> = Vec::new();
    out.push('_');
    append_chars(&mut out, &cs);
    out.push('_');
    proof {
        assert(out@ =~= seq!['_'] + cell@ + seq!['_']);
    }
    out
}

/// One row of cells rendered into its markup line.
fn render_row(row: &Vec<String>) -> (r: Vec<char>)
    ensures
        r@ == rendered_row(row@.map_values(|cell: String| cell@)),
{
    let ghost rv = row@.map_values(|cell: String| cell@);
    let mut segs: Vec<Vec<char>> = Vec::new();
    let mut i: usize = 0;
    proof {
        assert(rv.skip(0) =~= rv);
        assert(segs@.map_values(|v: Vec<char>| v@) =~= Seq::<Seq<char>>::empty());
        assert(Seq::<Seq<char>>::empty() + row_segments(rv) =~= row_segments(rv));
    }
    while i < row.len()
        invariant
            i <= row@.len(),
            rv == row@.map_values(|cell: String| cell@),
            segs@.map_values(|v: Vec<char>| v@) + row_segments(rv.skip(i as int)) == row_segments(
                rv,
            ),
        decreases row@.len() - i,
    {
        let n = row.len();
        let key = wrap_key(&row[i]);
        let value = if n - i > 1 {
            chars_of(row[i + 1].as_str())
        } else {
            Vec::<char>::new()
        };
        let note = if n - i > 2 {
            wrap_note(&row[i + 2])
        } else {
            Vec::<char>::new()
        };
        let next = if n - i > 3 {
            i + 3
        } else {
            n
        };
        proof {
            let tail = rv.skip(i as int);
            assert(tail[0] == rv[i as int]);
            if tail.len() >= 2 {
                assert(tail[1] == rv[i as int + 1]);
            }
            if tail.len() >= 3 {
                assert(tail[2] == rv[i as int + 2]);
            }
            if tail.len() > 3 {
                assert(tail.skip(3) =~= rv.skip(next as int));
            } else {
                assert(rv.skip(next as int) =~= Seq::<Seq<char>>::empty());
            }
            assert(row_segments(tail) == seq![key@, value@, note@] + row_segments(
                rv.skip(next as int),
            ));
        }
        segs.push(key);
        segs.push(value);
        segs.push(note);
        proof {
            assert(segs@.map_values(|v: Vec<char>| v@) + row_segments(rv.skip(next as int))
                =~= (segs@.map_values(|v: Vec<char>| v@).drop_last().drop_last().drop_last()) + (
            seq![segs@.map_values(|v: Vec<char>| v@)[segs@.len() - 3], segs@.map_values(
                |v: Vec<char>| v@,
            )[segs@.len() - 2], segs@.map_values(|v: Vec<char>| v@)[segs@.len() - 1]]
                + row_segments(rv.skip(next as int))));
        }
        i = next;
    }
    proof {
        assert(rv.skip(rv.len() as int) =~= Seq::<Seq<char>>::empty());
        assert(segs@.map_values(|v: Vec<char>| v@) =~= row_segments(rv));
    }
    let mut out: Vec<char> = Vec::new();
    let mut first: bool = true;
    let mut k: usize = 0;
    let ghost sv = segs@.map_values(|v: Vec<char>| v@);
    while k < segs.len()
        invariant
            k <= segs@.len(),
            sv == segs@.map_values(|v: Vec<char>| v@),
            sv == row_segments(rv),
            out@ == joined(surviving(sv.take(k as int)), seg_sep()),
            first == (surviving(sv.take(k as int)).len() == 0),
        decreases segs@.len() - k,
    {
        let seg = &segs[k];
        proof {
            assert(sv.take(k as int).push(sv[k as int]) =~= sv.take(k as int + 1));
            lemma_surviving_push(sv.take(k as int), sv[k as int]);
            lemma_joined_push(surviving(sv.take(k as int)), sv[k as int], seg_sep());
        }
        if seg_has_visible(seg) {
            if !first {
                out.push(' ');
                out.push(':');
                out.push(' ');
            }
            append_chars(&mut out, seg);
            proof {
                assert(out@ =~= joined(surviving(sv.take(k as int + 1)), seg_sep()));
            }
            first = false;
        }
        k = k + 1;
    }
    proof {
        assert(sv.take(sv.len() as int) =~= sv);
    }
    out
}

/// The full markup text for `rows`, exactly as `print_table` emits it.
pub fn render_table(rows: &Vec<Vec<String>>) -> (r: String)
    ensures
        r@ == rendered_table(table_view(rows)),
{
    let ghost tv = table_view(rows);
    let mut out: Vec<char> = Vec::new();
    let mut i: usize = 0;
    while i < rows.len()
        invariant
            i <= rows@.len(),
            tv == table_view(rows),
            out@ == rendered_table(tv.take(i as int)),
        decreases rows@.len() - i,
    {
        let line = render_row(&rows[i]);
        proof {
            assert(tv.take(i as int).push(tv[i as int]) =~= tv.take(i as int + 1));
            lemma_rendered_table_push(tv.take(i as int), tv[i as int]);
        }
        if i > 0 {
            out.push('\n');
            out.push('\n');
        }
        append_chars(&mut out, &line);
        proof {
            assert(out@ =~= rendered_table(tv.take(i as int + 1)));
        }
        i = i + 1;
    }
    proof {
        assert(tv.take(tv.len() as int) =~= tv);
    }
    string_of(out)
}

/// Render `rows` and append the result to the buffer through the pre-escaped
/// print path: the emphasis markers placed here must not be escaped away.
pub fn print_table(out: &mut LogCollector, rows: &Vec<Vec<String>>)
    ensures
        final(out)@ == old(out)@.push(logged_entry(rendered_table(table_view(rows)), false)),
{
    let text = render_table(rows);
    out.log(text, false);
}

} // verus!
