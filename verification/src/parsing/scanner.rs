//! The scanner: one pass over the characters of a file, which recognises
//! decorator lines, comments and assignments and tracks the position of each.

use crate::parsing::{FilePosition, Place};
use crate::text::{
    lemma_leading_spaces, lemma_trailing_spaces, text_of, trim_bounds, trimmed, trimmed_chars,
    trimmed_start,
};
use vstd::prelude::*;

verus! {

/// The place after a character `c` that stands at `place`: the start of the
/// next line after a line break, and else the next column.
pub open spec fn advance(place: Place, c: char) -> Place {
    if c == '\n' {
        Place { line: place.line + 1, column: 1 }
    } else {
        Place { line: place.line, column: place.column + 1 }
    }
}

/// What the scanner is reading.
#[derive(Debug, Clone, Copy, PartialEq, Eq, Structural)]
pub enum Mode {
    /// At the start of a line: a decorator, a comment or a key may begin.
    Neutral,
    /// In a decorator line, after its `@`.
    Decorator,
    /// In a comment, after its `#`.
    Comment,
    /// In the name of a key, before its `=`.
    KeyName,
    /// In the value of a key, after its `=`.
    Value,
}

/// A decorator line: its text without the `@` and without surrounding
/// whitespace, and the place where the line ended.
#[derive(Debug)]
pub struct DecoratorLine {
    pub text: String,
    pub position: FilePosition,
}

pub struct LineView {
    pub text: Seq<char>,
    pub place: Place,
}

impl View for DecoratorLine {
    type V = LineView;

    open spec fn view(&self) -> LineView {
        LineView { text: self.text@, place: self.position@ }
    }
}

/// The views of a sequence of decorator lines.
pub open spec fn line_views(s: Seq<DecoratorLine>) -> Seq<LineView> {
    s.map_values(|d: DecoratorLine| d@)
}

/// One assignment as the scanner found it: the name of the key, the place
/// where the name began, the decorator lines that stood before it, and the
/// text of the value as written, without the brackets of an array.
#[derive(Debug)]
pub struct Entry {
    pub key: String,
    pub position: FilePosition,
    pub decorators: Vec<DecoratorLine>,
    pub raw: String,
}

pub struct EntryView {
    pub key: Seq<char>,
    pub place: Place,
    pub decorators: Seq<LineView>,
    pub raw: Seq<char>,
}

impl View for Entry {
    type V = EntryView;

    open spec fn view(&self) -> EntryView {
        EntryView {
            key: self.key@,
            place: self.position@,
            decorators: line_views(self.decorators@),
            raw: self.raw@,
        }
    }
}

/// The views of a sequence of entries.
pub open spec fn entry_views(s: Seq<Entry>) -> Seq<EntryView> {
    s.map_values(|e: Entry| e@)
}

/// The state of the scanner between two characters.
pub struct ScanState {
    pub mode: Mode,
    /// In a value: inside a quoted string.
    pub in_string: bool,
    /// In a value: inside the brackets of an array.
    pub in_array: bool,
    /// In a value: the character before was a backslash that escapes.
    pub escaped: bool,
    /// The place of the next character.
    pub place: Place,
    /// The text gathered for the unit being read.
    pub current: Seq<char>,
    /// In a value: the name of its key, and the place where the name began.
    pub key: Seq<char>,
    pub key_place: Place,
    /// The decorator lines read since the last assignment.
    pub pending: Seq<LineView>,
    /// The assignments read so far.
    pub entries: Seq<EntryView>,
}

/// The state before the first character.
pub open spec fn start() -> ScanState {
    ScanState {
        mode: Mode::Neutral,
        in_string: false,
        in_array: false,
        escaped: false,
        place: Place { line: 1, column: 1 },
        current: Seq::empty(),
        key: Seq::empty(),
        key_place: Place { line: 1, column: 1 },
        pending: Seq::empty(),
        entries: Seq::empty(),
    }
}

/// The state with the value being read closed: its assignment joins the
/// entries and takes the pending decorator lines with it.
pub open spec fn emit(st: ScanState) -> ScanState {
    ScanState {
        mode: Mode::Neutral,
        in_string: false,
        in_array: false,
        escaped: false,
        current: Seq::empty(),
        key: Seq::empty(),
        pending: Seq::empty(),
        entries: st.entries.push(
            EntryView { key: st.key, place: st.key_place, decorators: st.pending, raw: st.current },
        ),
        ..st
    }
}

/// The transition at the start of a line.
pub open spec fn step_neutral(st: ScanState, c: char) -> ScanState {
    if c == '@' {
        ScanState { mode: Mode::Decorator, ..st }
    } else if c == '#' {
        ScanState { mode: Mode::Comment, ..st }
    } else if c == '\n' {
        st
    } else if c == '=' {
        ScanState {
            mode: Mode::Value,
            in_string: false,
            in_array: false,
            escaped: false,
            key: Seq::empty(),
            key_place: st.place,
            ..st
        }
    } else {
        ScanState { mode: Mode::KeyName, current: seq![c], ..st }
    }
}

/// The transition in the name of a key. At `=` the name is complete; it began
/// as many columns before the `=` as it has characters.
pub open spec fn step_key_name(st: ScanState, c: char) -> ScanState {
    if c == '=' {
        ScanState {
            mode: Mode::Value,
            in_string: false,
            in_array: false,
            escaped: false,
            key: st.current,
            key_place: Place { line: st.place.line, column: st.place.column - st.current.len() },
            current: Seq::empty(),
            ..st
        }
    } else if c == '\n' {
        ScanState { mode: Mode::Neutral, current: Seq::empty(), ..st }
    } else {
        ScanState { current: st.current.push(c), ..st }
    }
}

/// The transition in a decorator line. The line break completes the line.
pub open spec fn step_decorator(st: ScanState, c: char) -> ScanState {
    if c == '\n' {
        ScanState {
            mode: Mode::Neutral,
            current: Seq::empty(),
            pending: st.pending.push(LineView { text: trimmed(st.current), place: st.place }),
            ..st
        }
    } else {
        ScanState { current: st.current.push(c), ..st }
    }
}

/// The transition in a comment: all is dropped up to the line break.
pub open spec fn step_comment(st: ScanState, c: char) -> ScanState {
    if c == '\n' {
        ScanState { mode: Mode::Neutral, ..st }
    } else {
        st
    }
}

/// The transition in a value. A double quote that no backslash escapes opens
/// or closes a string; outside a string, `[` opens an array and `]` closes
/// it, and neither is kept; a line break outside string and array completes
/// the value; every other character is kept as it is.
pub open spec fn step_value(st: ScanState, c: char) -> ScanState {
    let escaped = c == '\\' && !st.escaped;
    if c == '"' && !st.escaped {
        ScanState { in_string: !st.in_string, current: st.current.push(c), escaped, ..st }
    } else if c == '[' && !st.in_array && !st.in_string {
        ScanState { in_array: true, escaped, ..st }
    } else if c == ']' && st.in_array && !st.in_string {
        ScanState { in_array: false, escaped, ..st }
    } else if c == '\n' && !st.in_string && !st.in_array {
        emit(st)
    } else {
        ScanState { current: st.current.push(c), escaped, ..st }
    }
}

/// The state after the character `c`.
pub open spec fn step(st: ScanState, c: char) -> ScanState {
    let next = match st.mode {
        Mode::Neutral => step_neutral(st, c),
        Mode::KeyName => step_key_name(st, c),
        Mode::Decorator => step_decorator(st, c),
        Mode::Comment => step_comment(st, c),
        Mode::Value => step_value(st, c),
    };
    ScanState { place: advance(st.place, c), ..next }
}

/// The state after all characters of `text`.
pub open spec fn run(text: Seq<char>) -> ScanState
    decreases text.len(),
{
    if text.len() == 0 {
        start()
    } else {
        step(run(text.drop_last()), text.last())
    }
}

/// The state at the end of the input: a value that is still being read is
/// closed there.
pub open spec fn finish(st: ScanState) -> ScanState {
    if st.mode == Mode::Value {
        emit(st)
    } else {
        st
    }
}

/// The assignments of `text`, in the order in which they are written.
pub open spec fn scanned(text: Seq<char>) -> Seq<EntryView> {
    finish(run(text)).entries
}

/// What holds of every state that the scanner reaches.
pub open spec fn reachable(st: ScanState) -> bool {
    &&& st.place.line >= 1
    &&& st.place.column >= 1
    &&& st.mode == Mode::Neutral ==> st.place.column == 1 && st.current.len() == 0
    &&& st.mode == Mode::Comment ==> st.current.len() == 0
    &&& st.mode == Mode::KeyName ==> st.current.len() == st.place.column - 1
    &&& st.mode == Mode::Value ==> 1 <= st.key_place.line <= st.place.line && st.key_place.column
        >= 1
    &&& forall|i: int|
        0 <= i < st.entries.len() ==> 1 <= (#[trigger] st.entries[i]).place.line < (if st.mode
            == Mode::Value {
            st.key_place.line
        } else {
            st.place.line
        }) && st.entries[i].place.column >= 1
    &&& forall|i: int, j: int|
        0 <= i < j < st.entries.len() ==> (#[trigger] st.entries[i]).place.line < (
        #[trigger] st.entries[j]).place.line
}

pub proof fn lemma_step_reachable(st: ScanState, c: char)
    requires
        reachable(st),
    ensures
        reachable(step(st, c)),
{
}

/// Every state that a run reaches is a reachable one; its line and column
/// are at most one more than the number of characters read.
pub proof fn lemma_run_reachable(text: Seq<char>)
    ensures
        reachable(run(text)),
        run(text).place.line <= text.len() + 1,
        run(text).place.column <= text.len() + 1,
    decreases text.len(),
{
    if text.len() > 0 {
        lemma_run_reachable(text.drop_last());
        lemma_step_reachable(run(text.drop_last()), text.last());
    }
}

/// The assignments of a text stand in the order of their lines: each begins
/// on a later line than the one before it.
pub proof fn law_entries_follow_lines(text: Seq<char>)
    ensures
        forall|i: int, j: int|
            0 <= i < j < scanned(text).len() ==> (#[trigger] scanned(text)[i]).place.line < (
            #[trigger] scanned(text)[j]).place.line,
{
    lemma_run_reachable(text);
    let st = run(text);
    let entries = scanned(text);
    assert forall|i: int, j: int| 0 <= i < j < entries.len() implies (
    #[trigger] entries[i]).place.line < (#[trigger] entries[j]).place.line by {
        if st.mode == Mode::Value {
            if j < st.entries.len() {
                assert(entries[i] == st.entries[i]);
                assert(entries[j] == st.entries[j]);
            } else {
                assert(entries[i] == st.entries[i]);
            }
        }
    }
}

/// The scanner between two characters.
pub struct Scanner {
    mode: Mode,
    in_string: bool,
    in_array: bool,
    escaped: bool,
    position: FilePosition,
    current: Vec<char>,
    key: String,
    key_position: FilePosition,
    pending: Vec<DecoratorLine>,
    entries: Vec<Entry>,
}

impl View for Scanner {
    type V = ScanState;

    closed spec fn view(&self) -> ScanState {
        ScanState {
            mode: self.mode,
            in_string: self.in_string,
            in_array: self.in_array,
            escaped: self.escaped,
            place: self.position@,
            current: self.current@,
            key: self.key@,
            key_place: self.key_position@,
            pending: line_views(self.pending@),
            entries: entry_views(self.entries@),
        }
    }
}

impl Scanner {
    /// The scanner before the first character.
    pub fn new() -> (r: Scanner)
        ensures
            r@ == start(),
            reachable(r@),
    {
        let r = Scanner {
            mode: Mode::Neutral,
            in_string: false,
            in_array: false,
            escaped: false,
            position: FilePosition::new(),
            current: Vec::new(),
            key: String::new(),
            key_position: FilePosition::new(),
            pending: Vec::new(),
            entries: Vec::new(),
        };
        assert(r@.pending =~= start().pending);
        assert(r@.entries =~= start().entries);
        r
    }

    /// Closes the value being read.
    fn emit(self) -> (r: Scanner)
        ensures
            r@ == emit(self@),
    {
        let Scanner { position, current, key, key_position, pending, entries, .. } = self;
        let ghost before = entry_views(entries@);
        let n = current.len();
        let raw = text_of(&current, 0, n);
        assert(raw@ =~= current@);
        let entry = Entry { key, position: key_position, decorators: pending, raw };
        let ghost view = entry@;
        let mut entries = entries;
        entries.push(entry);
        assert(entry_views(entries@) =~= before.push(view));
        let r = Scanner {
            mode: Mode::Neutral,
            in_string: false,
            in_array: false,
            escaped: false,
            position,
            current: Vec::new(),
            key: String::new(),
            key_position,
            pending: Vec::new(),
            entries,
        };
        assert(r@.pending =~= Seq::<LineView>::empty());
        r
    }

    /// Takes the character `c`, which stands at the scanner's position.
    pub fn step(self, c: char) -> (r: Scanner)
        requires
            reachable(self@),
            self@.place.line < u32::MAX,
            self@.place.column < u32::MAX,
        ensures
            r@ == step(self@, c),
            reachable(r@),
    {
        let ghost old = self@;
        proof {
            lemma_step_reachable(old, c);
        }
        let moved = if c == '\n' {
            FilePosition { line: self.position.line + 1, column: 1 }
        } else {
            FilePosition { line: self.position.line, column: self.position.column + 1 }
        };
        let mut st = self;
        match st.mode {
            Mode::Neutral => {
                if c == '@' {
                    st.mode = Mode::Decorator;
                } else if c == '#' {
                    st.mode = Mode::Comment;
                } else if c == '\n' {
                } else if c == '=' {
                    st.mode = Mode::Value;
                    st.in_string = false;
                    st.in_array = false;
                    st.escaped = false;
                    st.key = String::new();
                    st.key_position = st.position;
                } else {
                    st.mode = Mode::KeyName;
                    st.current.push(c);
                    assert(st.current@ =~= seq![c]);
                }
            },
            Mode::KeyName => {
                if c == '=' {
                    let n = st.current.len();
                    st.key = text_of(&st.current, 0, n);
                    assert(st.key@ =~= old.current);
                    st.key_position =
                    FilePosition { line: st.position.line, column: st.position.column - n as u32 };
                    st.current = Vec::new();
                    st.mode = Mode::Value;
                    st.in_string = false;
                    st.in_array = false;
                    st.escaped = false;
                } else if c == '\n' {
                    st.current = Vec::new();
                    st.mode = Mode::Neutral;
                } else {
                    st.current.push(c);
                }
            },
            Mode::Decorator => {
                if c == '\n' {
                    let (from, to) = trim_bounds(&st.current);
                    let text = text_of(&st.current, from, to);
                    let line = DecoratorLine { text, position: st.position };
                    let ghost before = line_views(st.pending@);
                    let ghost view = line@;
                    st.pending.push(line);
                    assert(line_views(st.pending@) =~= before.push(view));
                    st.current = Vec::new();
                    st.mode = Mode::Neutral;
                } else {
                    st.current.push(c);
                }
            },
            Mode::Comment => {
                if c == '\n' {
                    st.mode = Mode::Neutral;
                }
            },
            Mode::Value => {
                let escaped = c == '\\' && !st.escaped;
                if c == '"' && !st.escaped {
                    st.in_string = !st.in_string;
                    st.current.push(c);
                    st.escaped = escaped;
                } else if c == '[' && !st.in_array && !st.in_string {
                    st.in_array = true;
                    st.escaped = escaped;
                } else if c == ']' && st.in_array && !st.in_string {
                    st.in_array = false;
                    st.escaped = escaped;
                } else if c == '\n' && !st.in_string && !st.in_array {
                    st = st.emit();
                } else {
                    st.current.push(c);
                    st.escaped = escaped;
                }
            },
        }
        st.position = moved;
        st
    }

    /// Ends the input and hands out the assignments that were read.
    pub fn finish(self) -> (entries: Vec<Entry>)
        ensures
            entry_views(entries@) == finish(self@).entries,
    {
        let st = if self.mode == Mode::Value {
            self.emit()
        } else {
            self
        };
        st.entries
    }
}

/// Trimming makes a text no longer.
pub proof fn lemma_trimmed_len(s: Seq<char>)
    ensures
        trimmed(s).len() <= s.len(),
{
    lemma_leading_spaces(s);
    lemma_trailing_spaces(trimmed_start(s));
}

/// Scans `content`, without the whitespace at its start and at its end, in
/// one pass, and returns its assignments in the order in which they are
/// written. The content may hold at most `u32::MAX - 1` characters, so that
/// every line and column has its number.
pub fn scan(content: &str) -> (entries: Vec<Entry>)
    requires
        content@.len() < u32::MAX,
    ensures
        entry_views(entries@) == scanned(trimmed(content@)),
{
    let chars = trimmed_chars(content);
    proof {
        lemma_trimmed_len(content@);
    }
    let n = chars.len();
    let mut st = Scanner::new();
    let mut i: usize = 0;
    assert(chars@.take(0) =~= Seq::<char>::empty());
    while i < n
        invariant
            i <= n == chars.len(),
            n < u32::MAX,
            st@ == run(chars@.take(i as int)),
        decreases n - i,
    {
        proof {
            lemma_run_reachable(chars@.take(i as int));
            assert(chars@.take(i + 1).drop_last() =~= chars@.take(i as int));
        }
        st = st.step(chars[i]);
        i += 1;
    }
    assert(chars@.take(n as int) =~= chars@);
    st.finish()
}

} // verus!
