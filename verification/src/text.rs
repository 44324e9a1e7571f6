//! Character-level helpers: texts are handled as sequences of characters.

use vstd::prelude::*;
use vstd::utf8::encode_utf8;

verus! {

/// Whether `c` is whitespace: one of the characters to which Unicode gives
/// the property White_Space. They are the tab, the line feed, the vertical
/// tab, the form feed and the carriage return, the space, the next line, the
/// no-break space, the Ogham space mark, the spaces of fixed width from the
/// en quad to the hair space, the line and the paragraph separator, the
/// narrow no-break space, the medium mathematical space and the ideographic
/// space.
pub open spec fn is_space(c: char) -> bool {
    let n = c as u32;
    ||| 0x09 <= n <= 0x0D
    ||| n == 0x20
    ||| n == 0x85
    ||| n == 0xA0
    ||| n == 0x1680
    ||| 0x2000 <= n <= 0x200A
    ||| n == 0x2028
    ||| n == 0x2029
    ||| n == 0x202F
    ||| n == 0x205F
    ||| n == 0x3000
}

/// Whether `c` is whitespace.
pub fn is_whitespace(c: char) -> (r: bool)
    ensures
        r == is_space(c),
{
    let n: u32 = c as u32;
    (0x09 <= n && n <= 0x0D) || n == 0x20 || n == 0x85 || n == 0xA0 || n == 0x1680 || (0x2000 <= n
        && n <= 0x200A) || n == 0x2028 || n == 0x2029 || n == 0x202F || n == 0x205F || n == 0x3000
}

/// The length of a text in bytes: the number of bytes of its UTF-8 form.
pub open spec fn byte_length(s: Seq<char>) -> usize {
    encode_utf8(s).len() as usize
}

/// `String::push`: appends one character at the end of the string.
pub assume_specification[ std::string::String::push ](s: &mut std::string::String, c: char)
    ensures
        final(s)@ == old(s)@.push(c),
;

/// The characters of a string, in order.
pub fn chars_of(s: &str) -> (v: Vec<char>)
    ensures
        v@ == s@,
{
    let mut v: Vec<char> = Vec::new();
    for c in it: s.chars()
        invariant
            it.seq() == s@,
            v@ == it.seq().take(it.index() as int),
    {
        v.push(c);
        assert(it.seq().take(it.index() + 1) =~= it.seq().take(it.index() as int).push(c));
    }
    assert(v@ =~= s@);
    v
}

/// The string spelled by characters `from..to` of `v`.
pub fn text_of(v: &Vec<char>, from: usize, to: usize) -> (s: String)
    requires
        from <= to <= v.len(),
    ensures
        s@ == v@.subrange(from as int, to as int),
{
    let mut s = String::new();
    let mut i: usize = from;
    while i < to
        invariant
            from <= i <= to <= v.len(),
            s@ == v@.subrange(from as int, i as int),
        decreases to - i,
    {
        s.push(v[i]);
        i += 1;
    }
    s
}

/// Position of the first `c` in `s`, or the length of `s` if it holds none.
pub open spec fn first_index(s: Seq<char>, c: char) -> int
    decreases s.len(),
{
    if s.len() == 0 {
        0
    } else if s[0] == c {
        0
    } else {
        1 + first_index(s.drop_first(), c)
    }
}

/// Position of the last `c` in `s`, or -1 if it holds none.
pub open spec fn last_index(s: Seq<char>, c: char) -> int
    decreases s.len(),
{
    if s.len() == 0 {
        -1
    } else if s.last() == c {
        s.len() - 1
    } else {
        last_index(s.drop_last(), c)
    }
}

pub proof fn lemma_first_index(s: Seq<char>, c: char)
    ensures
        0 <= first_index(s, c) <= s.len(),
        first_index(s, c) < s.len() ==> s[first_index(s, c)] == c,
        forall|i: int| 0 <= i < first_index(s, c) ==> s[i] != c,
    decreases s.len(),
{
    if s.len() > 0 && s[0] != c {
        let t = s.drop_first();
        lemma_first_index(t, c);
        assert forall|i: int| 0 <= i < first_index(s, c) implies s[i] != c by {
            if i > 0 {
                assert(s[i] == t[i - 1]);
            }
        }
    }
}

pub proof fn lemma_last_index(s: Seq<char>, c: char)
    ensures
        -1 <= last_index(s, c) < s.len(),
        0 <= last_index(s, c) ==> s[last_index(s, c)] == c,
        forall|i: int| last_index(s, c) < i < s.len() ==> s[i] != c,
    decreases s.len(),
{
    if s.len() > 0 && s.last() != c {
        let t = s.drop_last();
        lemma_last_index(t, c);
        assert forall|i: int| last_index(s, c) < i < s.len() implies s[i] != c by {
            if i < t.len() {
                assert(s[i] == t[i]);
            }
        }
    }
}

/// A position that holds `c`, with none before it, is the first.
pub proof fn lemma_first_index_is(s: Seq<char>, c: char, k: int)
    requires
        0 <= k <= s.len(),
        k < s.len() ==> s[k] == c,
        forall|i: int| 0 <= i < k ==> s[i] != c,
    ensures
        first_index(s, c) == k,
{
    lemma_first_index(s, c);
}

/// A position that holds `c`, with none after it, is the last.
pub proof fn lemma_last_index_is(s: Seq<char>, c: char, k: int)
    requires
        -1 <= k < s.len(),
        0 <= k ==> s[k] == c,
        forall|i: int| k < i < s.len() ==> s[i] != c,
    ensures
        last_index(s, c) == k,
{
    lemma_last_index(s, c);
}

/// Position of the first `c` in `v`, or the length of `v`.
pub fn find_first(v: &Vec<char>, c: char) -> (r: usize)
    ensures
        r == first_index(v@, c),
        r <= v.len(),
{
    let n = v.len();
    let mut i: usize = 0;
    while i < n && v[i] != c
        invariant
            i <= n == v.len(),
            forall|k: int| 0 <= k < i ==> v@[k] != c,
        decreases n - i,
    {
        i += 1;
    }
    proof {
        lemma_first_index_is(v@, c, i as int);
    }
    i
}

/// Position of the last `c` in `v`, if it holds one.
pub fn find_last(v: &Vec<char>, c: char) -> (r: Option<usize>)
    ensures
        match r {
            Some(i) => i == last_index(v@, c) && i < v.len(),
            None => last_index(v@, c) == -1,
        },
{
    let n = v.len();
    let mut i: usize = n;
    while i > 0 && v[i - 1] != c
        invariant
            i <= n == v.len(),
            forall|k: int| i <= k < n ==> v@[k] != c,
        decreases i,
    {
        i -= 1;
    }
    proof {
        lemma_last_index_is(v@, c, i - 1);
    }
    if i == 0 {
        None
    } else {
        Some(i - 1)
    }
}

/// Whether `needle` stands in `hay` at the position `at`.
pub open spec fn occurs_at(hay: Seq<char>, needle: Seq<char>, at: int) -> bool {
    0 <= at && at + needle.len() <= hay.len() && hay.subrange(at, at + needle.len()) == needle
}

/// The first position from `from` on at which `needle` stands in `hay`, or
/// -1 if there is none.
pub open spec fn search_from(hay: Seq<char>, needle: Seq<char>, from: int) -> int
    decreases hay.len() - from,
{
    if from < 0 || from + needle.len() > hay.len() {
        -1
    } else if occurs_at(hay, needle, from) {
        from
    } else if from < hay.len() {
        search_from(hay, needle, from + 1)
    } else {
        -1
    }
}

/// The first position at which `needle` stands in `hay`, or -1 if it stands
/// nowhere in it.
pub open spec fn search(hay: Seq<char>, needle: Seq<char>) -> int {
    search_from(hay, needle, 0)
}

/// What a search from a position finds is the first occurrence from there
/// on, and it finds nothing only where there is none.
pub proof fn law_search_finds_first(hay: Seq<char>, needle: Seq<char>, from: int)
    requires
        0 <= from,
    ensures
        search_from(hay, needle, from) == -1 || (from <= search_from(hay, needle, from)
            && occurs_at(hay, needle, search_from(hay, needle, from))),
        forall|i: int|
            from <= i && (i < search_from(hay, needle, from) || search_from(hay, needle, from)
                == -1) ==> !occurs_at(hay, needle, i),
    decreases hay.len() - from,
{
    if from + needle.len() <= hay.len() && !occurs_at(hay, needle, from) && from < hay.len() {
        law_search_finds_first(hay, needle, from + 1);
    }
}

/// Whether `needle` stands in `hay` at the position `at`.
pub fn stands_at(hay: &Vec<char>, needle: &Vec<char>, at: usize) -> (r: bool)
    requires
        at + needle.len() <= hay.len(),
    ensures
        r == occurs_at(hay@, needle@, at as int),
{
    let n = needle.len();
    let mut i: usize = 0;
    while i < n
        invariant
            i <= n == needle.len(),
            at + n <= hay.len(),
            hay@.subrange(at as int, at + i) == needle@.subrange(0, i as int),
        decreases n - i,
    {
        if hay[at + i] != needle[i] {
            assert(hay@.subrange(at as int, at + n)[i as int] != needle@[i as int]);
            return false;
        }
        i += 1;
        assert(hay@.subrange(at as int, at + i) =~= hay@.subrange(at as int, at + i - 1).push(
            hay@[at + i - 1],
        ));
        assert(needle@.subrange(0, i as int) =~= needle@.subrange(0, i - 1).push(needle@[i - 1]));
    }
    assert(needle@.subrange(0, n as int) =~= needle@);
    true
}

/// The first position at which `needle` stands in `hay`, if it stands in it.
pub fn find_text(hay: &Vec<char>, needle: &Vec<char>) -> (r: Option<usize>)
    ensures
        match r {
            Some(at) => at == search(hay@, needle@) && at + needle.len() <= hay.len(),
            None => search(hay@, needle@) == -1,
        },
{
    if needle.len() > hay.len() {
        return None;
    }
    let last = hay.len() - needle.len();
    let mut at: usize = 0;
    loop
        invariant
            at <= last == hay.len() - needle.len(),
            search(hay@, needle@) == search_from(hay@, needle@, at as int),
        decreases last - at,
    {
        if stands_at(hay, needle, at) {
            return Some(at);
        }
        if at == last {
            assert(search_from(hay@, needle@, at + 1) == -1);
            return None;
        }
        at += 1;
    }
}

/// `count` times the character `c`.
pub open spec fn repeated(c: char, count: nat) -> Seq<char> {
    Seq::new(count, |i: int| c)
}

/// `count` times the character `c`.
pub fn repeat(c: char, count: usize) -> (r: String)
    ensures
        r@ == repeated(c, count as nat),
{
    let mut r = String::new();
    let mut i: usize = 0;
    while i < count
        invariant
            i <= count,
            r@ == repeated(c, i as nat),
        decreases count - i,
    {
        r.push(c);
        i += 1;
        assert(r@ =~= repeated(c, i as nat));
    }
    r
}

/// Line `number` of `content`, counted from 1, without its line break; the
/// empty text if there is no such line.
pub open spec fn line_of(content: Seq<char>, number: int) -> Seq<char>
    decreases content.len(),
{
    let end = first_index(content, '\n');
    if number <= 1 {
        if number == 1 {
            content.take(end)
        } else {
            Seq::empty()
        }
    } else if 0 <= end < content.len() {
        line_of(content.skip(end + 1), number - 1)
    } else {
        Seq::empty()
    }
}

/// Line `number` of `content`, counted from 1.
pub fn line_text(content: &Vec<char>, number: u32) -> (r: String)
    ensures
        r@ == line_of(content@, number as int),
{
    if number == 0 {
        return String::new();
    }
    let n = content.len();
    let mut from: usize = 0;
    let mut left: u32 = number;
    assert(content@.skip(0) =~= content@);
    loop
        invariant
            from <= n == content.len(),
            1 <= left <= number,
            line_of(content@, number as int) == line_of(content@.skip(from as int), left as int),
        decreases n - from,
    {
        let ghost rest = content@.skip(from as int);
        let mut end: usize = from;
        while end < n && content[end] != '\n'
            invariant
                from <= end <= n == content.len(),
                rest == content@.skip(from as int),
                forall|k: int| 0 <= k < end - from ==> rest[k] != '\n',
            decreases n - end,
        {
            end += 1;
        }
        proof {
            lemma_first_index_is(rest, '\n', end - from);
        }
        if left == 1 {
            assert(rest.take(end - from) =~= content@.subrange(from as int, end as int));
            return text_of(content, from, end);
        }
        if end == n {
            return String::new();
        }
        assert(rest.skip(end - from + 1) =~= content@.skip(end + 1));
        from = end + 1;
        left -= 1;
    }
}

/// Number of whitespace characters at the start of `s`.
pub open spec fn leading_spaces(s: Seq<char>) -> int
    decreases s.len(),
{
    if s.len() > 0 && is_space(s[0]) {
        1 + leading_spaces(s.drop_first())
    } else {
        0
    }
}

/// Number of whitespace characters at the end of `s`.
pub open spec fn trailing_spaces(s: Seq<char>) -> int
    decreases s.len(),
{
    if s.len() > 0 && is_space(s.last()) {
        1 + trailing_spaces(s.drop_last())
    } else {
        0
    }
}

/// `s` without the whitespace at its start.
pub open spec fn trimmed_start(s: Seq<char>) -> Seq<char> {
    s.skip(leading_spaces(s))
}

/// `s` without the whitespace at its start and at its end.
pub open spec fn trimmed(s: Seq<char>) -> Seq<char> {
    let rest = trimmed_start(s);
    rest.take(rest.len() - trailing_spaces(rest))
}

pub proof fn lemma_leading_spaces(s: Seq<char>)
    ensures
        0 <= leading_spaces(s) <= s.len(),
        leading_spaces(s) < s.len() ==> !is_space(s[leading_spaces(s)]),
        forall|i: int| 0 <= i < leading_spaces(s) ==> is_space(s[i]),
    decreases s.len(),
{
    if s.len() > 0 && is_space(s[0]) {
        let t = s.drop_first();
        lemma_leading_spaces(t);
        assert forall|i: int| 0 <= i < leading_spaces(s) implies is_space(s[i]) by {
            if i > 0 {
                assert(s[i] == t[i - 1]);
            }
        }
    }
}

pub proof fn lemma_trailing_spaces(s: Seq<char>)
    ensures
        0 <= trailing_spaces(s) <= s.len(),
        trailing_spaces(s) < s.len() ==> !is_space(s[s.len() - trailing_spaces(s) - 1]),
        forall|i: int| s.len() - trailing_spaces(s) <= i < s.len() ==> is_space(s[i]),
    decreases s.len(),
{
    if s.len() > 0 && is_space(s.last()) {
        let t = s.drop_last();
        lemma_trailing_spaces(t);
        assert forall|i: int| s.len() - trailing_spaces(s) <= i < s.len() implies is_space(
            s[i],
        ) by {
            if i < t.len() {
                assert(s[i] == t[i]);
            }
        }
    }
}

/// Whitespace up to `k`, and none at `k`, makes `k` the number of leading
/// whitespace characters.
pub proof fn lemma_leading_spaces_is(s: Seq<char>, k: int)
    requires
        0 <= k <= s.len(),
        k < s.len() ==> !is_space(s[k]),
        forall|i: int| 0 <= i < k ==> is_space(s[i]),
    ensures
        leading_spaces(s) == k,
{
    lemma_leading_spaces(s);
}

/// Whitespace in the last `k` places, and none before them, makes `k` the
/// number of trailing whitespace characters.
pub proof fn lemma_trailing_spaces_is(s: Seq<char>, k: int)
    requires
        0 <= k <= s.len(),
        k < s.len() ==> !is_space(s[s.len() - k - 1]),
        forall|i: int| s.len() - k <= i < s.len() ==> is_space(s[i]),
    ensures
        trailing_spaces(s) == k,
{
    lemma_trailing_spaces(s);
}

/// The bounds of `v` without the whitespace at its start and at its end.
pub fn trim_bounds(v: &Vec<char>) -> (r: (usize, usize))
    ensures
        r.0 <= r.1 <= v.len(),
        v@.subrange(r.0 as int, r.1 as int) == trimmed(v@),
{
    let n = v.len();
    let mut from: usize = 0;
    while from < n && is_whitespace(v[from])
        invariant
            from <= n == v.len(),
            forall|i: int| 0 <= i < from ==> is_space(v@[i]),
        decreases n - from,
    {
        from += 1;
    }
    let ghost rest = v@.skip(from as int);
    let mut to: usize = n;
    while to > from && is_whitespace(v[to - 1])
        invariant
            from <= to <= n == v.len(),
            rest == v@.skip(from as int),
            forall|i: int| to - from <= i < rest.len() ==> is_space(rest[i]),
        decreases to,
    {
        to -= 1;
    }
    proof {
        lemma_leading_spaces_is(v@, from as int);
        lemma_trailing_spaces_is(rest, n - to);
        assert(v@.subrange(from as int, to as int) =~= trimmed(v@));
    }
    (from, to)
}

/// The characters of `s` without the whitespace at its start and at its end.
pub fn trimmed_chars(s: &str) -> (v: Vec<char>)
    ensures
        v@ == trimmed(s@),
{
    let all = chars_of(s);
    let (from, to) = trim_bounds(&all);
    let mut v: Vec<char> = Vec::new();
    let mut i: usize = from;
    while i < to
        invariant
            from <= i <= to <= all.len(),
            v@ == all@.subrange(from as int, i as int),
        decreases to - i,
    {
        v.push(all[i]);
        i += 1;
        assert(v@ =~= all@.subrange(from as int, i as int));
    }
    v
}

} // verus!
