//! The list of ignored files that an initialisation leaves behind.

use crate::text::{
    chars_of, first_index, lemma_first_index_is, text_of, trim_bounds, trimmed,
};
use crate::parsing::texts;
use vstd::prelude::*;

verus! {

/// Whether a line of `content`, taken without the whitespace around it, is
/// `name`.
pub open spec fn lists(content: Seq<char>, name: Seq<char>) -> bool
    decreases content.len(),
{
    let end = first_index(content, '\n');
    trimmed(content.take(end)) == name || (0 <= end < content.len() && lists(
        content.skip(end + 1),
        name,
    ))
}

/// The list `content` with `name` on it: the list itself if a line of it is
/// `name`, and else the list without the whitespace around it, with `name`
/// on a new line at its end.
pub open spec fn with_name(content: Seq<char>, name: Seq<char>) -> Seq<char> {
    if lists(content, name) {
        content
    } else {
        trimmed(content) + "\n"@ + name
    }
}

/// The list of ignored files with the environment file and the source file
/// on it.
pub open spec fn ignoring(content: Seq<char>) -> Seq<char> {
    with_name(with_name(content, ".env"@), ".vnv"@)
}

/// Whether the characters `a` from `from` to `to` are the characters `b`.
fn same(a: &Vec<char>, from: usize, to: usize, b: &Vec<char>) -> (r: bool)
    requires
        from <= to <= a.len(),
    ensures
        r == (a@.subrange(from as int, to as int) == b@),
{
    if to - from != b.len() {
        return false;
    }
    let n = b.len();
    let mut i: usize = 0;
    while i < n
        invariant
            i <= n == b.len(),
            to - from == n,
            to <= a.len(),
            forall|k: int| 0 <= k < i ==> a@[from + k] == b@[k],
        decreases n - i,
    {
        if a[from + i] != b[i] {
            assert(a@.subrange(from as int, to as int)[i as int] != b@[i as int]);
            return false;
        }
        i += 1;
    }
    assert(a@.subrange(from as int, to as int) =~= b@);
    true
}

/// Whether a line of `content` is `name`.
pub fn is_listed(content: &Vec<char>, name: &Vec<char>) -> (r: bool)
    ensures
        r == lists(content@, name@),
{
    let n = content.len();
    let mut from: usize = 0;
    assert(content@.skip(0) =~= content@);
    loop
        invariant
            from <= n == content.len(),
            lists(content@, name@) == lists(content@.skip(from as int), name@),
        decreases n - from,
    {
        let ghost rest = content@.skip(from as int);
        let mut end: usize = from;
        while end < n && content[end] != '\n'
            invariant
                from <= end <= n == content.len(),
                rest == content@.skip(from as int),
                forall|k: int| 0 <= k < end - from ==> rest[k] != '\n',
            decreases n - end,
        {
            end += 1;
        }
        proof {
            lemma_first_index_is(rest, '\n', end - from);
            assert(rest.take(end - from) =~= content@.subrange(from as int, end as int));
        }
        let mut line: Vec<char> = Vec::new();
        let mut i: usize = from;
        while i < end
            invariant
                from <= i <= end <= content.len(),
                line@ == content@.subrange(from as int, i as int),
            decreases end - i,
        {
            line.push(content[i]);
            i += 1;
            assert(line@ =~= content@.subrange(from as int, i as int));
        }
        let (a, b) = trim_bounds(&line);
        if same(&line, a, b, name) {
            return true;
        }
        if end == n {
            return false;
        }
        assert(rest.skip(end - from + 1) =~= content@.skip(end + 1));
        from = end + 1;
    }
}

/// The list `content` with `name` on it.
fn add_name(content: String, name: &str) -> (r: (String, bool))
    ensures
        r.0@ == with_name(content@, name@),
        r.1 == !lists(content@, name@),
{
    let chars = chars_of(content.as_str());
    let wanted = chars_of(name);
    if is_listed(&chars, &wanted) {
        (content, false)
    } else {
        let (a, b) = trim_bounds(&chars);
        let mut r = text_of(&chars, a, b);
        r.append("\n");
        r.append(name);
        (r, true)
    }
}

/// The names that are added to the list of ignored files `content`, in the
/// order in which they are.
pub open spec fn added_names(content: Seq<char>) -> Seq<Seq<char>> {
    (if lists(content, ".env"@) {
        Seq::empty()
    } else {
        seq![".env"@]
    }) + (if lists(with_name(content, ".env"@), ".vnv"@) {
        Seq::empty()
    } else {
        seq![".vnv"@]
    })
}

/// The list of ignored files `content` with the environment file and the
/// source file on it, and the names that had to be added, in the order in
/// which they were.
pub fn gitignore(content: &str) -> (r: (String, Vec<String>))
    ensures
        r.0@ == ignoring(content@),
        texts(r.1@) == added_names(content@),
{
    let mut added: Vec<String> = Vec::new();
    let start = String::from_str(content);
    let (first, env_added) = add_name(start, ".env");
    if env_added {
        added.push(String::from_str(".env"));
    }
    let (second, vnv_added) = add_name(first, ".vnv");
    if vnv_added {
        added.push(String::from_str(".vnv"));
    }
    assert(texts(added@) =~= added_names(content@));
    (second, added)
}

} // verus!
