//! The text of a log event, built field by field the way the editor's log
//! panel shows it: the `message` field is the text itself, every other
//! field follows as `name=value`.

use vstd::prelude::*;

use crate::text::{push_char, str_eq};

verus! {

/// `msg`, then a space when `msg` is not empty, then `name=value`.
pub open spec fn with_field(msg: Seq<char>, name: Seq<char>, value: Seq<char>) -> Seq<char> {
    (if msg.len() == 0 {
        msg
    } else {
        msg.push(' ')
    }) + name + "="@ + value
}

/// A debug-formatted message without the double quotes that surround a
/// formatted string, when it has them.
pub open spec fn unquoted(raw: Seq<char>) -> Seq<char> {
    if raw.len() >= 2 && raw[0] == '"' && raw.last() == '"' {
        raw.subrange(1, raw.len() - 1)
    } else {
        raw
    }
}

/// Collects the fields of one log event into its display text.
pub struct MessageVisitor {
    pub message: String,
}

impl MessageVisitor {
    /// A visitor with no text yet.
    pub fn new() -> (r: Self)
        ensures
            r.message@ == Seq::<char>::empty(),
    {
        MessageVisitor { message: String::new() }
    }

    fn append_field(&mut self, field: &str, value: &str)
        ensures
            final(self).message@ == with_field(old(self).message@, field@, value@),
    {
        if self.message.unicode_len() != 0 {
            push_char(&mut self.message, ' ');
        }
        self.message.append(field);
        self.message.append("=");
        self.message.append(value);
    }

    /// Records a string field: the `message` field replaces the text, any
    /// other field is appended as `name=value`.
    pub fn record_str(&mut self, field: &str, value: &str)
        ensures
            final(self).message@ == if field@ == "message"@ {
                value@
            } else {
                with_field(old(self).message@, field@, value@)
            },
    {
        if str_eq(field, "message") {
            self.message = String::from_str(value);
        } else {
            self.append_field(field, value);
        }
    }

    /// Records a field given by its `Debug` text: for the `message` field the
    /// text loses the quotes that `Debug` puts round a string and replaces
    /// the text; any other field is appended as `name=debug_text`.
    pub fn record_debug(&mut self, field: &str, debug_text: &str)
        ensures
            final(self).message@ == if field@ == "message"@ {
                unquoted(debug_text@)
            } else {
                with_field(old(self).message@, field@, debug_text@)
            },
    {
        if str_eq(field, "message") {
            let n = debug_text.unicode_len();
            if n >= 2 && debug_text.get_char(0) == '"' && debug_text.get_char(n - 1) == '"' {
                self.message = String::from_str(debug_text.substring_char(1, n - 1));
            } else {
                self.message = String::from_str(debug_text);
            }
        } else {
            self.append_field(field, debug_text);
        }
    }
}

} // verus!
