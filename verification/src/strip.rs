//! Removal of terminal control sequences.
//!
//! A control sequence is an introducer byte (ESC or CSI) followed by `[`,
//! a run of private-mode markers, an optional semicolon-separated numeric
//! parameter list, and one terminating command byte.  Matching is
//! leftmost-first and non-overlapping: the scan drops each sequence it finds
//! and keeps every other character, so text without sequences passes through
//! unchanged.

use crate::chars::{chars_of, string_of};
use vstd::prelude::*;

verus! {

/// A control-sequence introducer: ESC (0x1B) or CSI (0x9B).
pub open spec fn is_intro(c: char) -> bool {
    c == '\u{1b}' || c == '\u{9b}'
}

/// A private-mode marker allowed between `[` and the parameter list.
pub open spec fn is_marker(c: char) -> bool {
    c == '(' || c == ')' || c == '#' || c == ';' || c == '?'
}

/// An ASCII decimal digit of a parameter.
pub open spec fn is_param_digit(c: char) -> bool {
    48 <= c as u32 && c as u32 <= 57
}

/// A terminating command byte: a digit, `A` through `O`, `R`, `Z`, `c`,
/// `f` through `n`, `q`, `r`, `y`, `=`, `>` or `<`.
pub open spec fn is_command(c: char) -> bool {
    is_param_digit(c) || (65 <= c as u32 && c as u32 <= 79) || c == 'R' || c == 'Z' || c == 'c'
        || (102 <= c as u32 && c as u32 <= 110) || c == 'q' || c == 'r' || c == 'y' || c == '='
        || c == '>' || c == '<'
}

/// The first position at or after `j` that does not hold a marker.
pub open spec fn marker_end(s: Seq<char>, j: int) -> int
    decreases s.len() - j when j <= s.len()
{
    if j < s.len() && is_marker(s[j]) {
        marker_end(s, j + 1)
    } else {
        j
    }
}

/// The end of the greedy parameter parse from `j`: up to `digits_left` more
/// digits of the current run, with each semicolon starting a fresh run of at
/// most four digits.
pub open spec fn params_end(s: Seq<char>, j: int, digits_left: nat) -> int
    decreases s.len() - j, digits_left when j <= s.len()
{
    if j < s.len() && digits_left > 0 && is_param_digit(s[j]) {
        params_end(s, j + 1, (digits_left - 1) as nat)
    } else if j < s.len() && s[j] == ';' {
        params_end(s, j + 1, 4)
    } else {
        j
    }
}

/// The position reached from `p` by walking back over semicolons, but never
/// below `floor`.
pub open spec fn back_over_semis(s: Seq<char>, p: int, floor: int) -> int
    decreases p - floor when floor <= p
{
    if p > floor && s[p - 1] == ';' {
        back_over_semis(s, p - 1, floor)
    } else {
        p
    }
}

/// The end of the control sequence starting at position `i`, or `i` itself
/// when none starts there.  After the greedy parameter parse, a character
/// that cannot serve as the command byte makes the parse give back trailing
/// semicolons and read the last parameter digit as the command byte instead,
/// exactly as leftmost-first matching of the grammar does.
pub open spec fn control_end(s: Seq<char>, i: int) -> int {
    if 0 <= i && i + 1 < s.len() && is_intro(s[i]) && s[i + 1] == '[' {
        let j = marker_end(s, i + 2);
        if j < s.len() && is_param_digit(s[j]) {
            let q = params_end(s, j, 4);
            if q < s.len() && is_command(s[q]) {
                q + 1
            } else {
                back_over_semis(s, q, j + 1)
            }
        } else if j < s.len() && is_command(s[j]) {
            j + 1
        } else {
            i
        }
    } else {
        i
    }
}

proof fn lemma_marker_end_bounds(s: Seq<char>, j: int)
    requires
        0 <= j <= s.len(),
    ensures
        j <= marker_end(s, j) <= s.len(),
    decreases s.len() - j,
{
    if j < s.len() && is_marker(s[j]) {
        lemma_marker_end_bounds(s, j + 1);
    }
}

proof fn lemma_params_end_bounds(s: Seq<char>, j: int, digits_left: nat)
    requires
        0 <= j <= s.len(),
    ensures
        j <= params_end(s, j, digits_left) <= s.len(),
    decreases s.len() - j, digits_left,
{
    if j < s.len() && digits_left > 0 && is_param_digit(s[j]) {
        lemma_params_end_bounds(s, j + 1, (digits_left - 1) as nat);
    } else if j < s.len() && s[j] == ';' {
        lemma_params_end_bounds(s, j + 1, 4);
    }
}

proof fn lemma_back_over_semis_bounds(s: Seq<char>, p: int, floor: int)
    requires
        floor <= p,
    ensures
        floor <= back_over_semis(s, p, floor) <= p,
    decreases p - floor,
{
    if p > floor && s[p - 1] == ';' {
        lemma_back_over_semis_bounds(s, p - 1, floor);
    }
}

/// A control sequence never ends before its start nor past the text.
pub proof fn lemma_control_end_bounds(s: Seq<char>, i: int)
    requires
        0 <= i <= s.len(),
    ensures
        control_end(s, i) == i || i < control_end(s, i) <= s.len(),
{
    if i + 1 < s.len() && is_intro(s[i]) && s[i + 1] == '[' {
        lemma_marker_end_bounds(s, i + 2);
        let j = marker_end(s, i + 2);
        if j < s.len() && is_param_digit(s[j]) {
            assert(params_end(s, j, 4) == params_end(s, j + 1, 3));
            lemma_params_end_bounds(s, j + 1, 3);
            let q = params_end(s, j, 4);
            if q < s.len() && is_command(s[q]) {
            } else {
                lemma_back_over_semis_bounds(s, q, j + 1);
            }
        }
    }
}

#[via_fn]
proof fn strip_from_decreases(s: Seq<char>, i: int) {
    if 0 <= i <= s.len() {
        lemma_control_end_bounds(s, i);
    }
}

/// The text from position `i` on, with every control sequence removed: drop
/// each sequence found, keep every other character.
pub open spec fn strip_from(s: Seq<char>, i: int) -> Seq<char>
    decreases s.len() - i when 0 <= i <= s.len() via strip_from_decreases
{
    if i >= s.len() {
        Seq::empty()
    } else {
        let e = control_end(s, i);
        if e > i {
            strip_from(s, e)
        } else {
            seq![s[i]] + strip_from(s, i + 1)
        }
    }
}

/// `s` with every control sequence removed.
pub open spec fn strip_spec(s: Seq<char>) -> Seq<char> {
    strip_from(s, 0)
}

proof fn lemma_strip_from_identity(s: Seq<char>, i: int)
    requires
        0 <= i <= s.len(),
        forall|k: int| i <= k < s.len() ==> control_end(s, k) == k,
    ensures
        strip_from(s, i) == s.skip(i),
    decreases s.len() - i,
{
    if i >= s.len() {
        assert(s.skip(i) =~= Seq::<char>::empty());
    } else {
        lemma_strip_from_identity(s, i + 1);
        assert(s.skip(i) =~= seq![s[i]] + s.skip(i + 1));
    }
}

/// Text in which no position starts a control sequence is left unchanged by
/// stripping.
pub proof fn lemma_strip_identity(s: Seq<char>)
    requires
        forall|i: int| 0 <= i < s.len() ==> control_end(s, i) == i,
    ensures
        strip_spec(s) == s,
{
    lemma_strip_from_identity(s, 0);
    assert(s.skip(0) =~= s);
}

proof fn lemma_strip_from_no_introducers(s: Seq<char>, i: int)
    requires
        0 <= i <= s.len(),
        forall|m: int| 0 <= m < s.len() && is_intro(s[m]) ==> control_end(s, m) > m,
    ensures
        forall|k: int| 0 <= k < strip_from(s, i).len() ==> !is_intro(strip_from(s, i)[k]),
    decreases s.len() - i,
{
    if i >= s.len() {
        assert(strip_from(s, i).len() == 0);
    } else {
        let e = control_end(s, i);
        lemma_control_end_bounds(s, i);
        if e > i {
            lemma_strip_from_no_introducers(s, e);
            assert(strip_from(s, i) == strip_from(s, e));
        } else {
            lemma_strip_from_no_introducers(s, i + 1);
            assert(!is_intro(s[i]));
            assert(strip_from(s, i) == seq![s[i]] + strip_from(s, i + 1));
            assert forall|k: int| 0 <= k < strip_from(s, i).len() implies !is_intro(
                strip_from(s, i)[k],
            ) by {
                if k == 0 {
                    assert(strip_from(s, i)[0] == s[i]);
                } else {
                    assert(strip_from(s, i)[k] == strip_from(s, i + 1)[k - 1]);
                }
            }
        }
    }
}

/// When every introducer byte in `s` starts a complete control sequence,
/// the stripped text holds no introducer byte at all.  (A lone or partial
/// introducer, which starts no sequence, passes through instead.)
pub proof fn lemma_strip_no_introducers(s: Seq<char>)
    requires
        forall|i: int| 0 <= i < s.len() && is_intro(s[i]) ==> control_end(s, i) > i,
    ensures
        forall|k: int| 0 <= k < strip_spec(s).len() ==> !is_intro(strip_spec(s)[k]),
{
    lemma_strip_from_no_introducers(s, 0);
}

fn is_intro_exec(c: char) -> (r: bool)
    ensures
        r == is_intro(c),
{
    c == '\u{1b}' || c == '\u{9b}'
}

fn is_marker_exec(c: char) -> (r: bool)
    ensures
        r == is_marker(c),
{
    c == '(' || c == ')' || c == '#' || c == ';' || c == '?'
}

fn is_param_digit_exec(c: char) -> (r: bool)
    ensures
        r == is_param_digit(c),
{
    let u = c as u32;
    48 <= u && u <= 57
}

fn is_command_exec(c: char) -> (r: bool)
    ensures
        r == is_command(c),
{
    let u = c as u32;
    (48 <= u && u <= 57) || (65 <= u && u <= 79) || c == 'R' || c == 'Z' || c == 'c' || (102 <= u
        && u <= 110) || c == 'q' || c == 'r' || c == 'y' || c == '=' || c == '>' || c == '<'
}

/// The end of the control sequence starting at `chars[i]`, or `i` when none
/// starts there.
fn control_end_at(chars: &Vec<char>, i: usize) -> (e: usize)
    requires
        i < chars@.len(),
    ensures
        e as int == control_end(chars@, i as int),
{
    let n = chars.len();
    if !is_intro_exec(chars[i]) {
        return i;
    }
    if i + 1 >= n {
        return i;
    }
    if chars[i + 1] != '[' {
        return i;
    }
    let mut j: usize = i + 2;
    while j < chars.len() && is_marker_exec(chars[j])
        invariant
            i + 2 <= j <= chars@.len(),
            marker_end(chars@, i as int + 2) == marker_end(chars@, j as int),
        decreases chars@.len() - j,
    {
        j = j + 1;
    }
    assert(marker_end(chars@, i as int + 2) == j as int);
    if j >= chars.len() {
        return i;
    }
    if is_param_digit_exec(chars[j]) {
        let mut q: usize = j;
        let mut left: u8 = 4;
        loop
            invariant
                j <= q <= chars@.len(),
                j < chars@.len(),
                params_end(chars@, j as int, 4) == params_end(chars@, q as int, left as nat),
            ensures
                j <= q <= chars@.len(),
                params_end(chars@, j as int, 4) == q as int,
            decreases chars@.len() - q, left,
        {
            if q < chars.len() && left > 0 && is_param_digit_exec(chars[q]) {
                q = q + 1;
                left = left - 1;
            } else if q < chars.len() && chars[q] == ';' {
                q = q + 1;
                left = 4;
            } else {
                break ;
            }
        }
        proof {
            assert(params_end(chars@, j as int, 4) == params_end(chars@, j as int + 1, 3));
            lemma_params_end_bounds(chars@, j as int + 1, 3);
        }
        if q < chars.len() && is_command_exec(chars[q]) {
            return q + 1;
        }
        let mut p: usize = q;
        while p > j + 1 && chars[p - 1] == ';'
            invariant
                j + 1 <= p <= q,
                q <= chars@.len(),
                back_over_semis(chars@, q as int, j as int + 1) == back_over_semis(
                    chars@,
                    p as int,
                    j as int + 1,
                ),
            decreases p,
        {
            p = p - 1;
        }
        assert(back_over_semis(chars@, q as int, j as int + 1) == p as int);
        p
    } else if is_command_exec(chars[j]) {
        j + 1
    } else {
        i
    }
}

/// The characters of `chars` with every control sequence removed.
fn strip_chars(chars: &Vec<char>) -> (r: Vec<char>)
    ensures
        r@ == strip_spec(chars@),
{
    let mut out: Vec<char> = Vec::new();
    let mut i: usize = 0;
    while i < chars.len()
        invariant
            i <= chars@.len(),
            strip_spec(chars@) == out@ + strip_from(chars@, i as int),
        decreases chars@.len() - i,
    {
        let e = control_end_at(chars, i);
        proof {
            lemma_control_end_bounds(chars@, i as int);
        }
        if e > i {
            i = e;
        } else {
            out.push(chars[i]);
            proof {
                assert(out@ + strip_from(chars@, i as int + 1) =~= out@.drop_last() + (seq![
                    chars@[i as int],
                ] + strip_from(chars@, i as int + 1)));
            }
            i = i + 1;
        }
    }
    proof {
        assert(out@ + strip_from(chars@, chars@.len() as int) =~= out@);
    }
    out
}

/// `text` with every terminal control sequence removed; all other text,
/// malformed or partial sequences among it, passes through unchanged.
pub fn strip(text: &str) -> (r: String)
    ensures
        r@ == strip_spec(text@),
{
    let cs = chars_of(text);
    string_of(strip_chars(&cs))
}

} // verus!
