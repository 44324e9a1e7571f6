//! What a check shows for an error of a key: the line of the key, marks
//! under the value that the error is about, and the message.

use crate::decorators::report::{ErrorView, ValidationError};
use crate::parsing::{rendered, Key, KeyView};
use crate::text::{
    byte_length, chars_of, find_first, find_text, first_index, repeat, repeated, search, text_of,
};
use crate::util::{unquote, unquoted};
use vstd::prelude::*;

verus! {

/// What is shown for one error of a key.
#[derive(Debug)]
pub struct Excerpt {
    /// The line of the key.
    pub line: String,
    /// What stands under the line: carets under the value that the error is
    /// about, or nothing.
    pub marks: String,
    /// The message of the error.
    pub message: String,
}

pub struct ExcerptView {
    pub line: Seq<char>,
    pub marks: Seq<char>,
    pub message: Seq<char>,
}

impl View for Excerpt {
    type V = ExcerptView;

    open spec fn view(&self) -> ExcerptView {
        ExcerptView { line: self.line@, marks: self.marks@, message: self.message@ }
    }
}

/// The value of the key as it is shown: as it is written in a file, or,
/// where values are cloaked, a star for each byte of that.
pub open spec fn shown_value(key: KeyView, cloak: bool) -> Seq<char> {
    if cloak {
        repeated('*', byte_length(rendered(key.value)) as nat)
    } else {
        rendered(key.value)
    }
}

/// The line that is shown for an error of the key. Where the error is about
/// a value, it is the assignment of the key, written anew. Where it is not,
/// it is the line of the source; cloaked, that line up to its `=` and the
/// stars, or nothing if it has no `=`.
pub open spec fn excerpt_line(
    key: KeyView,
    error: ErrorView,
    source_line: Seq<char>,
    cloak: bool,
) -> Seq<char> {
    match error.value {
        Some(_) => key.key + "="@ + shown_value(key, cloak),
        None => if cloak {
            if first_index(source_line, '=') < source_line.len() {
                source_line.take(first_index(source_line, '=') + 1) + shown_value(key, cloak)
            } else {
                Seq::empty()
            }
        } else {
            source_line
        },
    }
}

/// The marks under the line: where the error is about a value whose text
/// stands in the text of the key's value, carets under its first
/// occurrence; else nothing. The marks are counted in bytes: a space for
/// each byte of the name, of the `=` and of what stands before the
/// occurrence, and a caret for each byte of the occurrence.
pub open spec fn excerpt_marks(key: KeyView, error: ErrorView) -> Seq<char> {
    match error.value {
        Some(value) => {
            let at = search(rendered(key.value), rendered(value));
            if at >= 0 {
                repeated(
                    ' ',
                    (byte_length(key.key) + 1 + byte_length(rendered(key.value).take(at))) as nat,
                ) + repeated('^', byte_length(rendered(value)) as nat)
            } else {
                Seq::empty()
            }
        },
        None => Seq::empty(),
    }
}

/// The message that is shown. Cloaked, the first occurrence in it of the
/// key's value, taken without its surrounding quotes, is replaced by the
/// stars.
pub open spec fn excerpt_message(key: KeyView, error: ErrorView, cloak: bool) -> Seq<char> {
    let bare = unquoted(rendered(key.value));
    let at = search(error.message, bare);
    if cloak && at >= 0 {
        error.message.take(at) + shown_value(key, cloak) + error.message.skip(at + bare.len())
    } else {
        error.message
    }
}

/// What is shown for the error `error` of the key `key`, whose line in the
/// source is `source_line`.
pub open spec fn excerpt_of(
    key: KeyView,
    error: ErrorView,
    source_line: Seq<char>,
    cloak: bool,
) -> ExcerptView {
    ExcerptView {
        line: excerpt_line(key, error, source_line, cloak),
        marks: excerpt_marks(key, error),
        message: excerpt_message(key, error, cloak),
    }
}

/// What a check shows for the error `error` of the key `key`.
pub fn excerpt(key: &Key, error: &ValidationError, source_line: &str, cloak: bool) -> (r: Excerpt)
    ensures
        r@ == excerpt_of(key@, error@, source_line@, cloak),
{
    let value = key.value.to_string();
    let value_chars = chars_of(value.as_str());
    let shown = if cloak {
        repeat('*', value.as_str().len())
    } else {
        value.clone()
    };
    let mut line = String::new();
    let mut marks = String::new();
    match &error.value {
        Some(problem) => {
            let problem_text = problem.to_string();
            let problem_chars = chars_of(problem_text.as_str());
            match find_text(&value_chars, &problem_chars) {
                Some(at) => {
                    let before = text_of(&value_chars, 0, at);
                    assert(before@ =~= value@.take(at as int));
                    let name = repeat(' ', key.key.as_str().len());
                    let gap = repeat(' ', before.as_str().len());
                    let carets = repeat('^', problem_text.as_str().len());
                    marks.append(name.as_str());
                    marks.push(' ');
                    marks.append(gap.as_str());
                    assert(marks@ =~= repeated(
                        ' ',
                        (byte_length(key@.key) + 1 + byte_length(before@)) as nat,
                    ));
                    marks.append(carets.as_str());
                },
                None => {},
            }
            line.append(key.key.as_str());
            line.append("=");
            line.append(shown.as_str());
            assert(line@ =~= key@.key + "="@ + shown@);
        },
        None => {
            if cloak {
                let source = chars_of(source_line);
                let at = find_first(&source, '=');
                if at < source.len() {
                    let head = text_of(&source, 0, at + 1);
                    line.append(head.as_str());
                    line.append(shown.as_str());
                    assert(line@ =~= source_line@.take(at + 1) + shown@);
                }
            } else {
                line.append(source_line);
                assert(line@ =~= source_line@);
            }
        },
    }
    let message_chars = chars_of(error.message.as_str());
    let mut message = String::new();
    let mut replaced = false;
    if cloak {
        let bare = chars_of(unquote(&value_chars).as_str());
        match find_text(&message_chars, &bare) {
            Some(at) => {
                let head = text_of(&message_chars, 0, at);
                let tail = text_of(&message_chars, at + bare.len(), message_chars.len());
                message.append(head.as_str());
                message.append(shown.as_str());
                message.append(tail.as_str());
                assert(message@ =~= error@.message.take(at as int) + shown@ + error@.message.skip(
                    at + bare.len(),
                ));
                replaced = true;
            },
            None => {},
        }
    }
    if !replaced {
        message = error.message.clone();
    }
    Excerpt { line, marks, message }
}

} // verus!
