//! Answering a completion request at a position of a document.
use vstd::prelude::*;
use crate::context::{
    cursor_in_line, cursor_ok, line_context, parse_line_context, ContextView, LineContext,
};
use crate::item::{views, Completion, CompletionView};
use crate::schema::{get_key_completions, key_completions, Schema};
use crate::text::{lines, lines_of, string_of};
use crate::values::{get_value_completions, value_completions};

verus! {

/// The characters of an optional text.
pub open spec fn opt_text(content: Option<&str>) -> Option<Seq<char>> {
    match content {
        Some(s) => Some(s@),
        None => None,
    }
}

/// The request can be answered: there is no text, the line is past its end,
/// or the line can be cut at the cursor.
pub open spec fn request_ok(content: Option<Seq<char>>, line: int, character: int) -> bool {
    match content {
        None => true,
        Some(c) => line >= lines(c).len() || cursor_ok(lines(c)[line], character),
    }
}

/// The completions at line `line`, byte `character` of a document: all keys
/// where the text is unknown or the line is past its end; nothing in a
/// comment; the matching keys in a key; the values of the key after `=`.
pub open spec fn completion_items(
    s: Schema,
    content: Option<Seq<char>>,
    line: int,
    character: int,
) -> Seq<CompletionView> {
    match content {
        None => key_completions(s, seq![]),
        Some(c) => if line >= lines(c).len() {
            key_completions(s, seq![])
        } else {
            match line_context(lines(c)[line], character) {
                ContextView::Comment => seq![],
                ContextView::Key(p) => key_completions(s, p),
                ContextView::Value { key, partial } => value_completions(s, key, partial),
            }
        },
    }
}

/// Whether a completion request at line `line`, byte `character` can be
/// answered for this text.
pub fn request_in_bounds(content: Option<&str>, line: u32, character: u32) -> (r: bool)
    ensures
        r == request_ok(opt_text(content), line as int, character as int),
{
    match content {
        None => true,
        Some(c) => {
            let ls = lines_of(c);
            let n = line as usize;
            if n >= ls.len() {
                true
            } else {
                let l = &ls[n];
                assert(l@ == lines(c@)[n as int]);
                assert(l@.subrange(0, l@.len() as int) =~= l@);
                let text = string_of(l, 0, l.len());
                cursor_in_line(text.as_str(), character)
            }
        },
    }
}

/// The completions at line `line`, byte `character` of a document whose text
/// is `content` (`None` where the document is not open): all keys where the
/// text is unknown or the line is past its end; nothing in a comment line;
/// the keys matching what was typed in a key; the values for the key after
/// `=`.
pub fn complete(schema: &Schema, content: Option<&str>, line: u32, character: u32) -> (items: Vec<
    Completion,
>)
    requires
        request_ok(opt_text(content), line as int, character as int),
    ensures
        views(items@) == completion_items(*schema, opt_text(content), line as int, character as int),
{
    proof {
        reveal_strlit("");
        assert(""@ =~= Seq::<char>::empty());
    }
    match content {
        None => get_key_completions(schema, ""),
        Some(c) => {
            let ls = lines_of(c);
            let n = line as usize;
            if n >= ls.len() {
                get_key_completions(schema, "")
            } else {
                let l = &ls[n];
                assert(l@ == lines(c@)[n as int]);
                assert(l@.subrange(0, l@.len() as int) =~= l@);
                let text = string_of(l, 0, l.len());
                match parse_line_context(text.as_str(), character) {
                    LineContext::Comment => {
                        assert(views(Seq::<Completion>::empty()) =~= Seq::<CompletionView>::empty());
                        Vec::new()
                    },
                    LineContext::Key(p) => get_key_completions(schema, p.as_str()),
                    LineContext::Value { key, partial } => get_value_completions(
                        schema,
                        key.as_str(),
                        partial.as_str(),
                    ),
                }
            }
        },
    }
}

} // verus!
