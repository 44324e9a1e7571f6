//! The text of the template file: the keys of a file with their
//! declarations and without their values.

use crate::decorators::{declaration_text, declaration_views, DeclarationView};
use crate::parsing::{key_views, Key, KeyView};
use vstd::prelude::*;

verus! {

/// The declarations `ds`, each on a line of its own.
pub open spec fn declaration_lines(ds: Seq<DeclarationView>) -> Seq<char>
    decreases ds.len(),
{
    if ds.len() == 0 {
        Seq::empty()
    } else {
        declaration_lines(ds.drop_last()) + declaration_text(ds.last()) + "\n"@
    }
}

/// The template for `keys`: for each key, in order, its declarations and
/// then its name, each on a line of its own.
pub open spec fn template_file(keys: Seq<KeyView>) -> Seq<char>
    decreases keys.len(),
{
    if keys.len() == 0 {
        Seq::empty()
    } else {
        template_file(keys.drop_last()) + declaration_lines(keys.last().decorators)
            + keys.last().key + "\n"@
    }
}

/// The text of the template file for `keys`.
pub fn output(keys: &Vec<Key>) -> (file: String)
    ensures
        file@ == template_file(key_views(keys@)),
{
    let mut file = String::new();
    let ghost all = key_views(keys@);
    let mut i: usize = 0;
    assert(all.take(0) =~= Seq::<KeyView>::empty());
    while i < keys.len()
        invariant
            i <= keys.len(),
            all == key_views(keys@),
            file@ == template_file(all.take(i as int)),
        decreases keys.len() - i,
    {
        let key = &keys[i];
        let ghost before = file@;
        let ghost ds = declaration_views(key.decorators@);
        let mut j: usize = 0;
        assert(ds.take(0) =~= Seq::<DeclarationView>::empty());
        assert(file@ =~= before + declaration_lines(ds.take(0)));
        while j < key.decorators.len()
            invariant
                j <= key.decorators.len(),
                ds == declaration_views(key.decorators@),
                file@ == before + declaration_lines(ds.take(j as int)),
            decreases key.decorators.len() - j,
        {
            let text = key.decorators[j].to_string();
            assert(ds.take(j + 1).drop_last() =~= ds.take(j as int));
            assert(ds.take(j + 1).last() == key.decorators[j as int]@);
            file.append(text.as_str());
            file.append("\n");
            assert(file@ =~= before + declaration_lines(ds.take(j + 1)));
            j += 1;
        }
        assert(ds.take(key.decorators.len() as int) =~= ds);
        file.append(key.key.as_str());
        file.append("\n");
        assert(all.take(i + 1).drop_last() =~= all.take(i as int));
        assert(all.take(i + 1).last() == key@);
        assert(file@ =~= template_file(all.take(i + 1)));
        i += 1;
    }
    assert(all.take(keys.len() as int) =~= all);
    file
}

} // verus!
