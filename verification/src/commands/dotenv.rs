//! The text of the environment file that a build writes.

use crate::decorators::{declaration_text, declaration_views, DeclarationView};
use crate::parsing::{key_views, rendered, Key, KeyView};
use vstd::prelude::*;

verus! {

/// The declarations `ds`, each written as a comment on a line of its own.
pub open spec fn comments(ds: Seq<DeclarationView>) -> Seq<char>
    decreases ds.len(),
{
    if ds.len() == 0 {
        Seq::empty()
    } else {
        comments(ds.drop_last()) + "# "@ + declaration_text(ds.last()) + "\n"@
    }
}

/// The lines of one key: its declarations as comments, unless the file is
/// minified, and its assignment.
pub open spec fn key_lines(key: KeyView, minify: bool) -> Seq<char> {
    (if minify {
        Seq::empty()
    } else {
        comments(key.decorators)
    }) + key.key + "="@ + rendered(key.value) + "\n"@
}

/// The lines of the keys, in order.
pub open spec fn body(keys: Seq<KeyView>, minify: bool) -> Seq<char>
    decreases keys.len(),
{
    if keys.len() == 0 {
        Seq::empty()
    } else {
        body(keys.drop_last(), minify) + key_lines(keys.last(), minify)
    }
}

/// The line that says where the file comes from, with an empty line after
/// it.
pub open spec fn banner(source: Seq<char>) -> Seq<char> {
    "# This file was generated from '"@ + source + "' by vnv.\n\n"@
}

/// The environment file for `keys`, which come from the file `source`: one
/// assignment for each key, in order. Unless the file is minified, it starts
/// with a banner, and the declarations of each key stand above it as
/// comments.
pub open spec fn env_file(keys: Seq<KeyView>, source: Seq<char>, minify: bool) -> Seq<char> {
    (if minify {
        Seq::empty()
    } else {
        banner(source)
    }) + body(keys, minify)
}

/// The text of the environment file for `keys`.
pub fn output(keys: &Vec<Key>, source: &str, minify: bool) -> (file: String)
    ensures
        file@ == env_file(key_views(keys@), source@, minify),
{
    let mut file = String::new();
    if !minify {
        file.append("# This file was generated from '");
        file.append(source);
        file.append("' by vnv.\n\n");
    }
    let ghost start = file@;
    let ghost all = key_views(keys@);
    assert(start =~= if minify {
        Seq::empty()
    } else {
        banner(source@)
    });
    let mut i: usize = 0;
    assert(all.take(0) =~= Seq::<KeyView>::empty());
    assert(file@ =~= start + body(all.take(0), minify));
    while i < keys.len()
        invariant
            i <= keys.len(),
            all == key_views(keys@),
            file@ == start + body(all.take(i as int), minify),
        decreases keys.len() - i,
    {
        let key = &keys[i];
        let ghost before = file@;
        if !minify {
            let ghost ds = declaration_views(key.decorators@);
            let mut j: usize = 0;
            assert(ds.take(0) =~= Seq::<DeclarationView>::empty());
            assert(file@ =~= before + comments(ds.take(0)));
            while j < key.decorators.len()
                invariant
                    j <= key.decorators.len(),
                    ds == declaration_views(key.decorators@),
                    file@ == before + comments(ds.take(j as int)),
                decreases key.decorators.len() - j,
            {
                let text = key.decorators[j].to_string();
                assert(ds.take(j + 1).drop_last() =~= ds.take(j as int));
                assert(ds.take(j + 1).last() == key.decorators[j as int]@);
                file.append("# ");
                file.append(text.as_str());
                file.append("\n");
                assert(file@ =~= before + comments(ds.take(j + 1)));
                j += 1;
            }
            assert(ds.take(key.decorators.len() as int) =~= ds);
        }
        let value = key.value.to_string();
        file.append(key.key.as_str());
        file.append("=");
        file.append(value.as_str());
        file.append("\n");
        assert(all.take(i + 1).drop_last() =~= all.take(i as int));
        assert(all.take(i + 1).last() == key@);
        assert(file@ =~= start + body(all.take(i + 1), minify));
        i += 1;
    }
    assert(all.take(keys.len() as int) =~= all);
    file
}

} // verus!
