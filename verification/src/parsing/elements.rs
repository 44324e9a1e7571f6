//! Splitting of a value into the elements of an array.

use vstd::prelude::*;

verus! {

/// The state of the splitter between two characters.
pub struct SplitState {
    /// The elements that a comma has closed.
    pub done: Seq<Seq<char>>,
    /// The element being read.
    pub current: Seq<char>,
    /// Inside a quoted span.
    pub in_string: bool,
    /// The character before was a backslash that escapes.
    pub escaped: bool,
    /// A quote has opened or closed a span.
    pub quoted: bool,
}

/// The state before the first character.
pub open spec fn split_start() -> SplitState {
    SplitState {
        done: Seq::empty(),
        current: Seq::empty(),
        in_string: false,
        escaped: false,
        quoted: false,
    }
}

/// The state after the character `c`. A double quote that no backslash
/// escapes opens or closes a quoted span and is kept; outside such a span a
/// comma closes the element and a space is dropped; every other character is
/// kept as it is.
pub open spec fn split_step(st: SplitState, c: char) -> SplitState {
    let escaped = c == '\\' && !st.escaped;
    if c == '"' && !st.escaped {
        SplitState {
            current: st.current.push(c),
            in_string: !st.in_string,
            quoted: true,
            escaped,
            ..st
        }
    } else if c == ',' && !st.in_string {
        SplitState { done: st.done.push(st.current), current: Seq::empty(), escaped, ..st }
    } else if c == ' ' && !st.in_string {
        SplitState { escaped, ..st }
    } else {
        SplitState { current: st.current.push(c), escaped, ..st }
    }
}

/// The state after all characters of `text`.
pub open spec fn split_run(text: Seq<char>) -> SplitState
    decreases text.len(),
{
    if text.len() == 0 {
        split_start()
    } else {
        split_step(split_run(text.drop_last()), text.last())
    }
}

/// The elements of `text`: what stands between its commas, not counting the
/// commas inside quoted spans. There is always at least one.
pub open spec fn elements(text: Seq<char>) -> Seq<Seq<char>> {
    split_run(text).done.push(split_run(text).current)
}

/// Whether `text` holds a quoted span.
pub open spec fn has_quoted(text: Seq<char>) -> bool {
    split_run(text).quoted
}

/// The state after all characters of `text`, read on from the state `st`.
pub open spec fn split_from(st: SplitState, text: Seq<char>) -> SplitState
    decreases text.len(),
{
    if text.len() == 0 {
        st
    } else {
        split_step(split_from(st, text.drop_last()), text.last())
    }
}

/// Reading a text is reading its first part and then reading on.
pub proof fn lemma_split_from(st: SplitState, a: Seq<char>, b: Seq<char>)
    ensures
        split_from(st, a + b) == split_from(split_from(st, a), b),
    decreases b.len(),
{
    if b.len() == 0 {
        assert(a + b =~= a);
    } else {
        lemma_split_from(st, a, b.drop_last());
        assert((a + b).drop_last() =~= a + b.drop_last());
        assert((a + b).last() == b.last());
    }
}

/// Reading one character is one step.
pub proof fn lemma_split_one(st: SplitState, c: char)
    ensures
        split_from(st, seq![c]) == split_step(st, c),
{
    let one = seq![c];
    assert(one.drop_last() =~= Seq::<char>::empty());
    assert(split_from(st, one.drop_last()) == st);
    assert(one.last() == c);
}

/// A run is a reading from the start.
pub proof fn lemma_split_run(text: Seq<char>)
    ensures
        split_run(text) == split_from(split_start(), text),
    decreases text.len(),
{
    if text.len() > 0 {
        lemma_split_run(text.drop_last());
    }
}

/// Whether the character that follows `text` is escaped: `text` ends with a
/// backslash that is not escaped itself.
pub open spec fn escapes(text: Seq<char>) -> bool
    decreases text.len(),
{
    text.len() > 0 && text.last() == '\\' && !escapes(text.drop_last())
}

/// Whether every double quote in `body` is escaped.
pub open spec fn quotes_escaped(body: Seq<char>) -> bool {
    forall|i: int| 0 <= i < body.len() && body[i] == '"' ==> escapes(body.take(i))
}

/// Whether `body` can stand between two double quotes as one quoted span:
/// every double quote in it is escaped, and it does not escape the quote
/// that closes the span.
pub open spec fn enclosed(body: Seq<char>) -> bool {
    quotes_escaped(body) && !escapes(body)
}

/// `body` between two double quotes.
pub open spec fn quoted_span(body: Seq<char>) -> Seq<char> {
    seq!['"'] + body + seq!['"']
}

/// Inside a quoted span every character is kept, commas and spaces too, and
/// the span stays open as long as every double quote is escaped.
pub proof fn lemma_inside_span(st: SplitState, body: Seq<char>)
    requires
        st.in_string,
        !st.escaped,
        quotes_escaped(body),
    ensures
        split_from(st, body) == (SplitState {
            current: st.current + body,
            escaped: escapes(body),
            ..st
        }),
    decreases body.len(),
{
    if body.len() == 0 {
        assert(st.current + body =~= st.current);
    } else {
        let front = body.drop_last();
        assert forall|i: int| 0 <= i < front.len() && front[i] == '"' implies escapes(
            front.take(i),
        ) by {
            assert(front[i] == body[i]);
            assert(front.take(i) =~= body.take(i));
        }
        lemma_inside_span(st, front);
        assert(body.last() == body[body.len() - 1]);
        assert(body.take(body.len() - 1) =~= front);
        assert((st.current + front).push(body.last()) =~= st.current + body);
    }
}

/// A quoted span, read outside a span, joins the element being read as a
/// whole and closes no element.
pub proof fn lemma_whole_span(st: SplitState, body: Seq<char>)
    requires
        !st.in_string,
        !st.escaped,
        enclosed(body),
    ensures
        split_from(st, quoted_span(body)) == (SplitState {
            current: st.current + quoted_span(body),
            quoted: true,
            ..st
        }),
{
    let open = seq!['"'];
    let opened = SplitState {
        current: st.current.push('"'),
        in_string: true,
        quoted: true,
        ..st
    };
    lemma_split_one(st, '"');
    assert(split_from(st, open) == opened);
    lemma_split_from(st, open, body);
    lemma_inside_span(opened, body);
    lemma_split_from(st, open + body, open);
    let inside = split_from(st, open + body);
    lemma_split_one(inside, '"');
    assert((st.current.push('"') + body).push('"') =~= st.current + quoted_span(body));
}

/// The texts `items`, written as a list with commas between them.
pub open spec fn listed(items: Seq<Seq<char>>) -> Seq<char>
    decreases items.len(),
{
    if items.len() == 0 {
        Seq::empty()
    } else if items.len() == 1 {
        items[0]
    } else {
        listed(items.drop_last()) + seq![','] + items.last()
    }
}

/// Whether every text of `items` is a quoted span.
pub open spec fn all_spans(items: Seq<Seq<char>>) -> bool {
    forall|i: int|
        0 <= i < items.len() ==> exists|body: Seq<char>|
            enclosed(body) && #[trigger] items[i] == quoted_span(body)
}

/// The state after a list of quoted spans: all but the last are closed
/// elements, the last is being read.
pub proof fn lemma_listed_spans(items: Seq<Seq<char>>)
    requires
        items.len() >= 1,
        all_spans(items),
    ensures
        split_run(listed(items)) == (SplitState {
            done: items.drop_last(),
            current: items.last(),
            in_string: false,
            escaped: false,
            quoted: true,
        }),
    decreases items.len(),
{
    let last = items.last();
    let body = choose|body: Seq<char>|
        enclosed(body) && items[items.len() - 1] == quoted_span(body);
    if items.len() == 1 {
        lemma_split_run(last);
        lemma_whole_span(split_start(), body);
        assert(split_start().current + quoted_span(body) =~= quoted_span(body));
        assert(items.drop_last() =~= Seq::<Seq<char>>::empty());
    } else {
        let front = items.drop_last();
        assert forall|i: int| 0 <= i < front.len() implies exists|b: Seq<char>|
            enclosed(b) && #[trigger] front[i] == quoted_span(b) by {
            assert(front[i] == items[i]);
        }
        lemma_listed_spans(front);
        let text = listed(front) + seq![','];
        lemma_split_run(listed(front));
        lemma_split_run(text);
        lemma_split_run(text + last);
        lemma_split_from(split_start(), listed(front), seq![',']);
        let before = split_run(listed(front));
        lemma_split_one(before, ',');
        let closed = split_run(text);
        assert(closed.done =~= front);
        lemma_split_from(split_start(), text, last);
        lemma_whole_span(closed, body);
        assert(closed.current + quoted_span(body) =~= last);
    }
}

/// A quoted element is never split: a list of quoted spans, whatever commas,
/// spaces, backslashes and escaped quotes stand inside them, has exactly
/// these spans as its elements.
pub proof fn law_quoted_elements_are_kept(items: Seq<Seq<char>>)
    requires
        items.len() >= 1,
        all_spans(items),
    ensures
        elements(listed(items)) == items,
        has_quoted(listed(items)),
{
    lemma_listed_spans(items);
    assert(items.drop_last().push(items.last()) =~= items);
}

/// The views of a sequence of character vectors.
pub open spec fn char_views(s: Seq<Vec<char>>) -> Seq<Seq<char>> {
    s.map_values(|v: Vec<char>| v@)
}

/// A value split into elements.
pub struct Parts {
    pub elements: Vec<Vec<char>>,
    pub quoted: bool,
}

/// Splits `text` into its elements.
pub fn split_elements(text: &Vec<char>) -> (parts: Parts)
    ensures
        char_views(parts.elements@) == elements(text@),
        parts.quoted == has_quoted(text@),
        parts.elements.len() >= 1,
{
    let n = text.len();
    let mut done: Vec<Vec<char>> = Vec::new();
    let mut current: Vec<char> = Vec::new();
    let mut in_string = false;
    let mut escaped = false;
    let mut quoted = false;
    let mut i: usize = 0;
    assert(text@.take(0) =~= Seq::<char>::empty());
    assert(char_views(done@) =~= Seq::<Seq<char>>::empty());
    while i < n
        invariant
            i <= n == text.len(),
            split_run(text@.take(i as int)) == (SplitState {
                done: char_views(done@),
                current: current@,
                in_string,
                escaped,
                quoted,
            }),
        decreases n - i,
    {
        let c = text[i];
        proof {
            assert(text@.take(i + 1).drop_last() =~= text@.take(i as int));
        }
        let ghost before = char_views(done@);
        let next_escaped = c == '\\' && !escaped;
        if c == '"' && !escaped {
            current.push(c);
            in_string = !in_string;
            quoted = true;
        } else if c == ',' && !in_string {
            let ghost closed = current@;
            done.push(current);
            current = Vec::new();
            assert(char_views(done@) =~= before.push(closed));
        } else if c == ' ' && !in_string {
        } else {
            current.push(c);
        }
        escaped = next_escaped;
        i += 1;
    }
    assert(text@.take(n as int) =~= text@);
    let ghost before = char_views(done@);
    let ghost last = current@;
    done.push(current);
    assert(char_views(done@) =~= before.push(last));
    Parts { elements: done, quoted }
}

} // verus!
