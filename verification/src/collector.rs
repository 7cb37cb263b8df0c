//! The log buffer of one execution context.
//!
//! Messages are sanitized on entry — control sequences stripped, markup
//! escaped when asked for — and buffered in order until the context ends and
//! the caller drains them for delivery.

use crate::escape::{escape_markdownv2, escape_seq, MarkupZone};
use crate::strip::{strip, strip_spec};
use vstd::prelude::*;

verus! {

/// An ordered buffer of sanitized log lines, owned by exactly one execution
/// context.  Entries keep their insertion order and are never changed after
/// insertion; draining moves them all out at once.
pub struct LogCollector {
    logs: Vec<String>,
}

impl View for LogCollector {
    type V = Seq<Seq<char>>;

    closed spec fn view(&self) -> Seq<Seq<char>> {
        self.logs@.map_values(|entry: String| entry@)
    }
}

/// What `log` appends for a message: the message with control sequences
/// stripped, escaped for the plain-text zone when asked for.
pub open spec fn logged_entry(message: Seq<char>, escape_markdown: bool) -> Seq<char> {
    if escape_markdown {
        escape_seq(MarkupZone::PlainText, strip_spec(message))
    } else {
        strip_spec(message)
    }
}

impl LogCollector {
    /// An empty buffer for a fresh execution context.
    pub fn new() -> (r: Self)
        ensures
            r@ == Seq::<Seq<char>>::empty(),
    {
        let r = LogCollector { logs: Vec::new() };
        proof {
            assert(r@ =~= Seq::<Seq<char>>::empty());
        }
        r
    }

    /// Strip control sequences from `message`, escape the result for plain
    /// text when `escape_markdown` is set, and append it to the buffer.
    /// Never fails; an empty message is a valid entry.
    pub fn log(&mut self, message: String, escape_markdown: bool)
        ensures
            final(self)@ == old(self)@.push(logged_entry(message@, escape_markdown)),
    {
        let stripped = strip(message.as_str());
        let entry = if escape_markdown {
            escape_markdownv2(stripped.as_str())
        } else {
            stripped
        };
        self.logs.push(entry);
        proof {
            assert(self@ =~= old(self)@.push(logged_entry(message@, escape_markdown)));
        }
    }

    /// Hand back all buffered entries in insertion order and leave the buffer
    /// empty: a one-shot move, not a peek.
    pub fn drain_logs(&mut self) -> (r: Vec<String>)
        ensures
            r@.map_values(|entry: String| entry@) == old(self)@,
            final(self)@ == Seq::<Seq<char>>::empty(),
    {
        let mut taken: Vec<String> = Vec::new();
        core::mem::swap(&mut taken, &mut self.logs);
        proof {
            assert(self@ =~= Seq::<Seq<char>>::empty());
        }
        taken
    }

    /// The escaping print path: formats destined for the markup surface whose
    /// content has not been escaped yet.
    pub fn print(&mut self, message: String)
        ensures
            final(self)@ == old(self)@.push(logged_entry(message@, true)),
    {
        self.log(message, true);
    }

    /// The pre-escaped print path: for text that is already valid markup,
    /// which escaping again would corrupt.
    pub fn print_escaped(&mut self, message: String)
        ensures
            final(self)@ == old(self)@.push(logged_entry(message@, false)),
    {
        self.log(message, false);
    }
}

} // verus!
