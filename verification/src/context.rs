//! What the cursor stands on in one line of a configuration file: a comment,
//! a key being typed, or the value of a key.
//!
//! Cursor positions count bytes of the line's UTF-8 encoding.
use vstd::prelude::*;
use crate::text::{
    byte_len, char_index, char_index_of_byte, chars_of, find_char, first_at, is_boundary,
    lemma_byte_len_prefix, skip_leading_space, trim, trim_start, trimmed, trimmed_start,
    utf8_width_exec,
};

verus! {

/// The part of a line that a completion request is about.
pub enum LineContext {
    /// The line is a comment.
    Comment,
    /// The cursor is in the key; the text typed so far.
    Key(String),
    /// The cursor is after `=`: the key, and the value typed so far.
    Value { key: String, partial: String },
}

/// The mathematical counterpart of [`LineContext`].
pub enum ContextView {
    Comment,
    Key(Seq<char>),
    Value { key: Seq<char>, partial: Seq<char> },
}

impl View for LineContext {
    type V = ContextView;

    open spec fn view(&self) -> ContextView {
        match self {
            LineContext::Comment => ContextView::Comment,
            LineContext::Key(k) => ContextView::Key(k@),
            LineContext::Value { key, partial } => ContextView::Value { key: key@, partial: partial@ },
        }
    }
}

/// The first non-blank character of the line is `#`.
pub open spec fn is_comment_line(s: Seq<char>) -> bool {
    let t = trim_start(s);
    t.len() > 0 && t[0] == '#'
}

/// The line holds an `=`.
pub open spec fn has_eq(s: Seq<char>) -> bool {
    exists|i: int| #[trigger] first_at(s, '=', i)
}

/// The index of the first `=` of a line that holds one.
pub open spec fn eq_index(s: Seq<char>) -> int {
    choose|i: int| #[trigger] first_at(s, '=', i)
}

/// The byte offset at which the typed text ends: the cursor itself where the
/// line holds an `=`, else the cursor bounded by the line's end.
pub open spec fn cut_byte(s: Seq<char>, b: int) -> int {
    if has_eq(s) {
        b
    } else if b <= byte_len(s) {
        b
    } else {
        byte_len(s) as int
    }
}

/// The line can be cut at the cursor: the line is a comment, or the cut
/// offset lies within the line and between two characters.
pub open spec fn cursor_ok(s: Seq<char>, b: int) -> bool {
    ||| is_comment_line(s)
    ||| cut_byte(s, b) <= byte_len(s) && is_boundary(s, cut_byte(s, b))
}

/// What the cursor at byte `b` of line `s` stands on.
pub open spec fn line_context(s: Seq<char>, b: int) -> ContextView {
    if is_comment_line(s) {
        ContextView::Comment
    } else if has_eq(s) && b > byte_len(s.take(eq_index(s))) {
        ContextView::Value {
            key: trim(s.take(eq_index(s))),
            partial: trim_start(s.subrange(eq_index(s) + 1, char_index(s, b))),
        }
    } else {
        ContextView::Key(trim(s.take(char_index(s, cut_byte(s, b)))))
    }
}

/// A prefix's byte length determines the prefix.
pub proof fn lemma_char_index_unique(s: Seq<char>, k: int)
    requires
        0 <= k <= s.len(),
    ensures
        is_boundary(s, byte_len(s.take(k)) as int),
        char_index(s, byte_len(s.take(k)) as int) == k,
{
    let b = byte_len(s.take(k)) as int;
    assert(is_boundary(s, b));
    let k2 = char_index(s, b);
    if k2 < k {
        lemma_byte_len_prefix(s, k2, k);
    } else if k < k2 {
        lemma_byte_len_prefix(s, k, k2);
    }
}

/// The first `=` is unique.
proof fn lemma_eq_index(s: Seq<char>, i: int)
    requires
        first_at(s, '=', i),
    ensures
        has_eq(s),
        eq_index(s) == i,
{
    let j = eq_index(s);
    assert(first_at(s, '=', j));
    if j < i {
        assert(s[j] != '=');
    }
    if i < j {
        assert(s[i] != '=');
    }
}

/// Whether the first `k` characters of `s` take at least `b` bytes.
fn prefix_bytes_at_least(s: &[char], k: usize, b: u32) -> (r: bool)
    requires
        k <= s@.len(),
    ensures
        r == (byte_len(s@.take(k as int)) >= b),
{
    let bb = b as u64;
    let mut i: usize = 0;
    let mut acc: u64 = 0;
    assert(s@.take(0) =~= Seq::<char>::empty());
    while i < k && acc < bb
        invariant
            i <= k <= s@.len(),
            bb == b,
            acc == byte_len(s@.take(i as int)),
            acc < b + 4,
        decreases k - i,
    {
        assert(s@.take(i + 1).drop_last() =~= s@.take(i as int));
        acc = acc + utf8_width_exec(s[i]);
        i = i + 1;
    }
    if acc >= bb {
        proof {
            lemma_byte_len_prefix(s@, i as int, k as int);
        }
        true
    } else {
        false
    }
}

/// Whether the cursor at byte `character` can be handled for this line, that
/// is, whether the line can be cut there.
pub fn cursor_in_line(line: &str, character: u32) -> (r: bool)
    ensures
        r == cursor_ok(line@, character as int),
{
    let v = chars_of(line);
    let n = v.len();
    let lead = skip_leading_space(&v, 0, n);
    assert(v@.subrange(0, n as int) =~= v@);
    if lead < n && v[lead] == '#' {
        return true;
    }
    assert(!is_comment_line(line@));
    match find_char(&v, '=') {
        Some(e) => {
            proof {
                lemma_eq_index(v@, e as int);
            }
            let r = char_index_of_byte(&v, character);
            match r {
                Some(k) => {
                    assert(v@.take(n as int) =~= v@);
                    proof {
                        lemma_byte_len_prefix(v@, k as int, n as int);
                    }
                    assert(is_boundary(v@, character as int));
                    true
                },
                None => false,
            }
        },
        None => {
            assert(!has_eq(v@));
            assert(v@.take(n as int) =~= v@);
            if prefix_bytes_at_least(&v, n, character) {
                match char_index_of_byte(&v, character) {
                    Some(k) => {
                        assert(is_boundary(v@, character as int));
                        true
                    },
                    None => false,
                }
            } else {
                proof {
                    lemma_char_index_unique(v@, n as int);
                }
                true
            }
        },
    }
}

/// Works out what the cursor at byte `character` of `line` stands on: a
/// comment where the line's first non-blank character is `#`; the key typed
/// up to the cursor where the cursor is not past the first `=`; else the key
/// before the `=` and the value typed between it and the cursor.
pub fn parse_line_context(line: &str, character: u32) -> (ctx: LineContext)
    requires
        cursor_ok(line@, character as int),
    ensures
        ctx@ == line_context(line@, character as int),
{
    let v = chars_of(line);
    let n = v.len();
    let lead = skip_leading_space(&v, 0, n);
    assert(v@.subrange(0, n as int) =~= v@);
    if lead < n && v[lead] == '#' {
        return LineContext::Comment;
    }
    assert(!is_comment_line(line@));
    match find_char(&v, '=') {
        Some(e) => {
            proof {
                lemma_eq_index(v@, e as int);
            }
            let ge = prefix_bytes_at_least(&v, e, character);
            let k = match char_index_of_byte(&v, character) {
                Some(k) => k,
                None => {
                    proof {
                        assert(false);
                    }
                    0
                },
            };
            proof {
                lemma_char_index_unique(v@, k as int);
            }
            if ge {
                assert(v@.subrange(0, k as int) =~= v@.take(k as int));
                LineContext::Key(trimmed(&v, 0, k))
            } else {
                if k <= e {
                    proof {
                        lemma_byte_len_prefix(v@, k as int, e as int);
                    }
                }
                assert(v@.subrange(0, e as int) =~= v@.take(e as int));
                let key = trimmed(&v, 0, e);
                let partial = trimmed_start(&v, e + 1, k);
                LineContext::Value { key, partial }
            }
        },
        None => {
            assert(!has_eq(v@));
            assert(v@.take(n as int) =~= v@);
            let k = if prefix_bytes_at_least(&v, n, character) {
                match char_index_of_byte(&v, character) {
                    Some(k) => k,
                    None => {
                        proof {
                            assert(false);
                        }
                        0
                    },
                }
            } else {
                n
            };
            proof {
                lemma_char_index_unique(v@, k as int);
            }
            assert(v@.subrange(0, k as int) =~= v@.take(k as int));
            LineContext::Key(trimmed(&v, 0, k))
        },
    }
}

} // verus!
