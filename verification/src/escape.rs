//! Backslash escaping for a MarkdownV2-like markup dialect.
//!
//! Every character that is syntactically significant in the destination zone
//! receives one preceding backslash, in a single left-to-right pass; inserted
//! backslashes are never re-scanned.

use crate::chars::{append_chars, chars_of, string_of};
use vstd::prelude::*;

verus! {

/// The syntactic context a piece of text is destined for; it decides which
/// characters must be escaped so that they render literally.
#[derive(Clone, Copy, PartialEq, Eq, Structural, Debug)]
pub enum MarkupZone {
    /// Ordinary message text: the full metacharacter set is significant.
    PlainText,
    /// An inline or fenced code span: only backslash and backtick.
    InlineCode,
    /// A link destination: backslash, closing parenthesis and backtick.
    LinkDestination,
}

/// Whether `c` is significant, and hence escaped, in zone `z`.
pub open spec fn needs_escape(z: MarkupZone, c: char) -> bool {
    match z {
        MarkupZone::PlainText => c == '_' || c == '*' || c == '[' || c == ']' || c == '('
            || c == ')' || c == '~' || c == '`' || c == '>' || c == '#' || c == '+' || c == '-'
            || c == '=' || c == '|' || c == '{' || c == '}' || c == '.' || c == '!' || c == '\\',
        MarkupZone::InlineCode => c == '\\' || c == '`',
        MarkupZone::LinkDestination => c == '\\' || c == ')' || c == '`',
    }
}

/// One character as it appears after escaping for zone `z`.
pub open spec fn escaped_char(z: MarkupZone, c: char) -> Seq<char> {
    if needs_escape(z, c) {
        seq!['\\', c]
    } else {
        seq![c]
    }
}

/// `s` with a backslash inserted before every character significant in `z`.
pub open spec fn escape_seq(z: MarkupZone, s: Seq<char>) -> Seq<char>
    decreases s.len(),
{
    if s.len() == 0 {
        Seq::empty()
    } else {
        escaped_char(z, s[0]) + escape_seq(z, s.drop_first())
    }
}

/// Escaping handles the last character independently of the rest.
pub proof fn lemma_escape_push(z: MarkupZone, s: Seq<char>, c: char)
    ensures
        escape_seq(z, s.push(c)) == escape_seq(z, s) + escaped_char(z, c),
    decreases s.len(),
{
    if s.len() == 0 {
        assert(s.push(c)[0] == c);
        assert(s.push(c).drop_first() =~= Seq::<char>::empty());
        assert(escape_seq(z, s.push(c)) == escaped_char(z, c) + escape_seq(
            z,
            Seq::<char>::empty(),
        ));
        assert(escaped_char(z, c) + Seq::<char>::empty() =~= escaped_char(z, c));
        assert(escape_seq(z, s) + escaped_char(z, c) =~= escaped_char(z, c));
    } else {
        assert(s.push(c).drop_first() =~= s.drop_first().push(c));
        lemma_escape_push(z, s.drop_first(), c);
        assert(escape_seq(z, s.push(c)) =~= escape_seq(z, s) + escaped_char(z, c));
    }
}

/// Escaping distributes over concatenation: each character is escaped
/// independently of its neighbours.
pub proof fn lemma_escape_append(z: MarkupZone, a: Seq<char>, b: Seq<char>)
    ensures
        escape_seq(z, a + b) == escape_seq(z, a) + escape_seq(z, b),
    decreases b.len(),
{
    if b.len() == 0 {
        assert(a + b =~= a);
        assert(escape_seq(z, a) + escape_seq(z, b) =~= escape_seq(z, a));
    } else {
        let b0 = b.drop_last();
        assert(a + b =~= (a + b0).push(b.last()));
        assert(b =~= b0.push(b.last()));
        lemma_escape_append(z, a, b0);
        lemma_escape_push(z, a + b0, b.last());
        lemma_escape_push(z, b0, b.last());
        assert(escape_seq(z, a + b) =~= escape_seq(z, a) + escape_seq(z, b));
    }
}

/// Escaping never shortens text, and leaves its length unchanged exactly
/// when no character of it is significant in the zone.
pub proof fn lemma_escape_len(z: MarkupZone, s: Seq<char>)
    ensures
        escape_seq(z, s).len() >= s.len(),
        (escape_seq(z, s).len() == s.len()) <==> (forall|i: int|
            0 <= i < s.len() ==> !needs_escape(z, s[i])),
    decreases s.len(),
{
    if s.len() == 0 {
    } else {
        lemma_escape_len(z, s.drop_first());
        assert(escape_seq(z, s).len() == escaped_char(z, s[0]).len() + escape_seq(
            z,
            s.drop_first(),
        ).len());
        if escape_seq(z, s).len() == s.len() {
            assert forall|i: int| 0 <= i < s.len() implies !needs_escape(z, s[i]) by {
                if i > 0 {
                    assert(s[i] == s.drop_first()[i - 1]);
                }
            }
        }
        if forall|i: int| 0 <= i < s.len() ==> !needs_escape(z, s[i]) {
            assert forall|i: int| 0 <= i < s.drop_first().len() implies !needs_escape(
                z,
                s.drop_first()[i],
            ) by {
                assert(s.drop_first()[i] == s[i + 1]);
            }
            assert(escape_seq(z, s).len() == s.len());
        }
    }
}

/// One backslash removed before each reserved plain-text character: the
/// reading that undoes `escape_seq(MarkupZone::PlainText, _)`.
pub open spec fn unescape_plain(s: Seq<char>) -> Seq<char>
    decreases s.len(),
{
    if s.len() == 0 {
        Seq::empty()
    } else if s.len() >= 2 && s[0] == '\\' && needs_escape(MarkupZone::PlainText, s[1]) {
        seq![s[1]] + unescape_plain(s.skip(2))
    } else {
        seq![s[0]] + unescape_plain(s.drop_first())
    }
}

/// Round trip: escaping text for the plain zone and removing one backslash
/// before each reserved character recovers the text exactly.
pub proof fn lemma_unescape_escape_plain(t: Seq<char>)
    ensures
        unescape_plain(escape_seq(MarkupZone::PlainText, t)) == t,
    decreases t.len(),
{
    let z = MarkupZone::PlainText;
    if t.len() == 0 {
    } else {
        let e = escape_seq(z, t);
        lemma_unescape_escape_plain(t.drop_first());
        if needs_escape(z, t[0]) {
            assert(e == seq!['\\', t[0]] + escape_seq(z, t.drop_first()));
            assert(e[0] == '\\' && e[1] == t[0]);
            assert(e.skip(2) =~= escape_seq(z, t.drop_first()));
            assert(unescape_plain(e) == seq![t[0]] + unescape_plain(e.skip(2)));
            assert(unescape_plain(e) =~= t);
        } else {
            assert(e == seq![t[0]] + escape_seq(z, t.drop_first()));
            assert(e[0] == t[0]);
            assert(e[0] != '\\');
            assert(e.drop_first() =~= escape_seq(z, t.drop_first()));
            assert(unescape_plain(e) == seq![e[0]] + unescape_plain(e.drop_first()));
            assert(unescape_plain(e) =~= t);
        }
    }
}

/// On a single character, a code zone leaves everything but backslash and
/// backtick untouched, and gives each of those exactly one preceding
/// backslash; with `lemma_escape_append` this fixes the whole escaping.
pub proof fn lemma_escape_code_single(c: char)
    ensures
        (c == '\\' || c == '`') ==> escape_seq(MarkupZone::InlineCode, seq![c]) == seq!['\\', c],
        !(c == '\\' || c == '`') ==> escape_seq(MarkupZone::InlineCode, seq![c]) == seq![c],
{
    let z = MarkupZone::InlineCode;
    assert(seq![c].drop_first() =~= Seq::<char>::empty());
    assert(escape_seq(z, seq![c]) == escaped_char(z, c) + escape_seq(z, Seq::<char>::empty()));
    assert(escaped_char(z, c) + Seq::<char>::empty() =~= escaped_char(z, c));
}

/// Whether `c` is significant in zone `z`, decided executably.
fn needs_escape_exec(z: MarkupZone, c: char) -> (r: bool)
    ensures
        r == needs_escape(z, c),
{
    match z {
        MarkupZone::PlainText => c == '_' || c == '*' || c == '[' || c == ']' || c == '('
            || c == ')' || c == '~' || c == '`' || c == '>' || c == '#' || c == '+' || c == '-'
            || c == '=' || c == '|' || c == '{' || c == '}' || c == '.' || c == '!' || c == '\\',
        MarkupZone::InlineCode => c == '\\' || c == '`',
        MarkupZone::LinkDestination => c == '\\' || c == ')' || c == '`',
    }
}

/// The characters of `s`, escaped for zone `z`.
pub(crate) fn escape_chars(z: MarkupZone, s: &Vec<char>) -> (r: Vec<char>)
    ensures
        r@ == escape_seq(z, s@),
{
    let mut out: Vec<char> = Vec::new();
    let mut i: usize = 0;
    while i < s.len()
        invariant
            i <= s@.len(),
            out@ == escape_seq(z, s@.take(i as int)),
        decreases s@.len() - i,
    {
        let c = s[i];
        proof {
            assert(s@.take(i as int).push(s@[i as int]) =~= s@.take(i as int + 1));
            lemma_escape_push(z, s@.take(i as int), c);
        }
        if needs_escape_exec(z, c) {
            out.push('\\');
        }
        out.push(c);
        proof {
            assert(out@ =~= escape_seq(z, s@.take(i as int + 1)));
        }
        i = i + 1;
    }
    proof {
        assert(s@.take(s@.len() as int) =~= s@);
    }
    out
}

/// `text` with a backslash before each of the nineteen reserved plain-text
/// metacharacters.
pub fn escape_markdownv2(text: &str) -> (r: String)
    ensures
        r@ == escape_seq(MarkupZone::PlainText, text@),
{
    let cs = chars_of(text);
    string_of(escape_chars(MarkupZone::PlainText, &cs))
}

/// `text` with a backslash before each backslash and backtick, for content
/// destined for a code span.
pub fn escape_markdownv2_code(text: &str) -> (r: String)
    ensures
        r@ == escape_seq(MarkupZone::InlineCode, text@),
{
    let cs = chars_of(text);
    string_of(escape_chars(MarkupZone::InlineCode, &cs))
}

/// `text` with a backslash before each backslash, closing parenthesis and
/// backtick, for content destined for a link destination.
pub fn escape_markdownv2_link(text: &str) -> (r: String)
    ensures
        r@ == escape_seq(MarkupZone::LinkDestination, text@),
{
    let cs = chars_of(text);
    string_of(escape_chars(MarkupZone::LinkDestination, &cs))
}

/// A fence of three backticks.
pub open spec fn fence() -> Seq<char> {
    seq!['`', '`', '`']
}

/// `s` escaped for a code span and wrapped in a fenced code block.
pub open spec fn code_block_spec(s: Seq<char>) -> Seq<char> {
    fence() + seq!['\n'] + escape_seq(MarkupZone::InlineCode, s) + seq!['\n'] + fence()
}

/// `s` escaped for a code span and wrapped in a fenced code block tagged as
/// structured data.
pub open spec fn json_code_block_spec(s: Seq<char>) -> Seq<char> {
    fence() + seq!['j', 's', 'o', 'n', '\n'] + escape_seq(MarkupZone::InlineCode, s) + seq!['\n']
        + fence()
}

/// The rendered form of a value, made safe for a code span and wrapped in a
/// fenced code block.
pub fn code_block(text: &str) -> (r: String)
    ensures
        r@ == code_block_spec(text@),
{
    let cs = chars_of(text);
    let escaped = escape_chars(MarkupZone::InlineCode, &cs);
    let mut out: Vec<char> = Vec::new();
    out.push('`');
    out.push('`');
    out.push('`');
    out.push('\n');
    append_chars(&mut out, &escaped);
    out.push('\n');
    out.push('`');
    out.push('`');
    out.push('`');
    proof {
        assert(out@ =~= code_block_spec(text@));
    }
    string_of(out)
}

/// The debug rendering of a value, made safe for a code span and wrapped in a
/// fenced code block tagged as structured data.
pub fn json_code_block(text: &str) -> (r: String)
    ensures
        r@ == json_code_block_spec(text@),
{
    let cs = chars_of(text);
    let escaped = escape_chars(MarkupZone::InlineCode, &cs);
    let mut out: Vec<char> = Vec::new();
    out.push('`');
    out.push('`');
    out.push('`');
    out.push('j');
    out.push('s');
    out.push('o');
    out.push('n');
    out.push('\n');
    append_chars(&mut out, &escaped);
    out.push('\n');
    out.push('`');
    out.push('`');
    out.push('`');
    proof {
        assert(out@ =~= json_code_block_spec(text@));
    }
    string_of(out)
}

} // verus!
