//! From the assignments that the scanner found to the result: each
//! assignment is given its value and held to its decorators, and the keys are
//! gathered under their names.

use crate::decorators::report::{
    error_views, glue3, DecoratorValidationResult, ErrorView, OutcomeView, ValidationError,
};
use crate::decorators::{
    declaration_views, declares, decorator_views, find, found, name_of, validates,
    DeclarationView, Decorator, DecoratorParseResult, DecoratorView,
};
use crate::numeric::Arithmetic;
use crate::parsing::scanner::{line_views, Entry, EntryView, LineView};
use crate::parsing::{
    blank, coerce_value_type, coerces, key_views, notice_views, FilePosition, Key, KeyView,
    NoticeView, ParseError, ParseResult, Place, ResultView, Scope, ValueType, ValueView,
};
use crate::text::{chars_of, text_of, trim_bounds, trimmed};
use vstd::prelude::*;

verus! {

/// What the decorators of one key have given so far.
pub struct Tally {
    pub scope: Scope,
    /// The errors of the key.
    pub errors: Seq<ErrorView>,
    /// The declarations whose decorator is known.
    pub declarations: Seq<DeclarationView>,
    /// The errors about the file: the declarations whose decorator is not
    /// known.
    pub notices: Seq<NoticeView>,
}

/// The tally before the first decorator.
pub open spec fn opening() -> Tally {
    Tally {
        scope: Scope::Private,
        errors: Seq::empty(),
        declarations: Seq::empty(),
        notices: Seq::empty(),
    }
}

/// The errors of an outcome.
pub open spec fn errors_of(out: OutcomeView) -> Seq<ErrorView> {
    match out {
        OutcomeView::Pass => Seq::empty(),
        OutcomeView::Error(errors) => errors,
    }
}

/// The tally after a declaration of the known decorator `decorator`, whose
/// outcome on the value was `out`: the declaration is kept, the errors of the
/// outcome are added to those of the key, and the decorator named `public`
/// makes the key public, whatever the outcome.
pub open spec fn accepted(
    before: Tally,
    decorator: DecoratorView,
    declaration: DeclarationView,
    out: OutcomeView,
) -> Tally {
    Tally {
        scope: if decorator.name == "public"@ {
            Scope::Public
        } else {
            before.scope
        },
        errors: before.errors + errors_of(out),
        declarations: before.declarations.push(declaration),
        notices: before.notices,
    }
}

/// The message for a decorator that is not known.
pub open spec fn invalid_decorator(name: Seq<char>) -> Seq<char> {
    "Invalid decorator '"@ + name + "'"@
}

/// The tally after a declaration of a decorator that is not known: an error
/// about the file, at the place of the decorator line. The key is left as it
/// was.
pub open spec fn unknown(before: Tally, declaration: DeclarationView, place: Place) -> Tally {
    Tally {
        notices: before.notices.push(
            NoticeView { message: invalid_decorator(declaration.key), place },
        ),
        ..before
    }
}

/// `after` is a tally that may follow `before` when the decorator line `line`
/// is applied to `value` under `arith`.
pub open spec fn applies<A: Arithmetic>(
    arith: &A,
    table: Seq<DecoratorView>,
    value: ValueView,
    line: LineView,
    before: Tally,
    after: Tally,
) -> bool {
    exists|declaration: DeclarationView, out: OutcomeView|
        #![trigger declares(arith, line.text, declaration), errors_of(out)]
        {
            &&& declares(arith, line.text, declaration)
            &&& match found(table, declaration.key) {
                Some(decorator) => {
                    &&& validates(arith, decorator.validator, value, declaration.value, out)
                    &&& after == accepted(before, decorator, declaration, out)
                },
                None => after == unknown(before, declaration, line.place),
            }
        }
}

/// `tallies` are tallies that may follow each other when `lines` are applied
/// to `value` in order: one before the first line and one after each.
pub open spec fn tallied<A: Arithmetic>(
    arith: &A,
    table: Seq<DecoratorView>,
    value: ValueView,
    lines: Seq<LineView>,
    tallies: Seq<Tally>,
) -> bool {
    &&& tallies.len() == lines.len() + 1
    &&& tallies[0] == opening()
    &&& forall|i: int|
        0 <= i < lines.len() ==> applies(
            arith,
            table,
            value,
            lines[i],
            #[trigger] tallies[i],
            tallies[i + 1],
        )
}

/// The key of an assignment with the given value and the final tally of its
/// decorators. It is valid if it has no error.
pub open spec fn keyed(entry: EntryView, value: ValueView, tally: Tally) -> KeyView {
    KeyView {
        key: entry.key,
        scope: tally.scope,
        value,
        place: entry.place,
        valid: tally.errors.len() == 0,
        errors: tally.errors,
        decorators: tally.declarations,
    }
}

/// An assignment after its evaluation: its key, and the errors about the
/// file that its decorators gave.
pub struct Evaluated {
    pub key: Key,
    pub notices: Vec<ParseError>,
}

pub struct EvaluatedView {
    pub key: KeyView,
    pub notices: Seq<NoticeView>,
}

impl View for Evaluated {
    type V = EvaluatedView;

    open spec fn view(&self) -> EvaluatedView {
        EvaluatedView { key: self.key@, notices: notice_views(self.notices@) }
    }
}

/// `out` is what the assignment `entry` may evaluate to under `arith`: its
/// value is one that its text, without the whitespace around it, may have,
/// and its decorator lines are applied to that value in order.
pub open spec fn evaluates<A: Arithmetic>(
    arith: &A,
    table: Seq<DecoratorView>,
    entry: EntryView,
    out: EvaluatedView,
) -> bool {
    exists|value: ValueView, tallies: Seq<Tally>|
        #![trigger keyed(entry, value, tallies.last())]
        {
            &&& coerces(arith, trimmed(entry.raw), value)
            &&& tallied(arith, table, value, entry.decorators, tallies)
            &&& out.key == keyed(entry, value, tallies.last())
            &&& out.notices == tallies.last().notices
        }
}

/// What the decorators of one key have given so far, as the evaluation
/// keeps it.
#[derive(Debug)]
pub struct Ledger {
    pub scope: Scope,
    pub errors: Vec<ValidationError>,
    pub declarations: Vec<DecoratorParseResult>,
    pub notices: Vec<ParseError>,
}

impl View for Ledger {
    type V = Tally;

    open spec fn view(&self) -> Tally {
        Tally {
            scope: self.scope,
            errors: error_views(self.errors@),
            declarations: declaration_views(self.declarations@),
            notices: notice_views(self.notices@),
        }
    }
}

impl Ledger {
    /// The ledger before the first decorator.
    pub fn new() -> (r: Ledger)
        ensures
            r@ == opening(),
    {
        let r = Ledger {
            scope: Scope::Private,
            errors: Vec::new(),
            declarations: Vec::new(),
            notices: Vec::new(),
        };
        assert(r@.errors =~= opening().errors);
        assert(r@.declarations =~= opening().declarations);
        assert(r@.notices =~= opening().notices);
        r
    }

    /// Enters a declaration of the known decorator `decorator`, whose
    /// outcome on the value was `result`.
    pub fn accept(
        self,
        decorator: &Decorator,
        declaration: DecoratorParseResult,
        result: DecoratorValidationResult,
    ) -> (r: Ledger)
        ensures
            r@ == accepted(self@, decorator@, declaration@, result@),
    {
        let ghost before = self@;
        let ghost out = result@;
        let ghost declared = declaration@;
        let Ledger { scope, errors, declarations, notices } = self;
        let mut errors = errors;
        let mut declarations = declarations;
        match result {
            DecoratorValidationResult::Error(found_errors) => {
                let mut found_errors = found_errors;
                let ghost added = error_views(found_errors@);
                errors.append(&mut found_errors);
                assert(error_views(errors@) =~= before.errors + added);
            },
            DecoratorValidationResult::Pass => {
                assert(error_views(errors@) =~= before.errors + errors_of(out));
            },
        }
        let public = String::from_str("public");
        let scope = if decorator.name == public {
            Scope::Public
        } else {
            scope
        };
        declarations.push(declaration);
        assert(declaration_views(declarations@) =~= before.declarations.push(declared));
        Ledger { scope, errors, declarations, notices }
    }

    /// Enters a declaration of a decorator that is not known, whose line
    /// stands at `position`.
    pub fn reject(self, declaration: &DecoratorParseResult, position: FilePosition) -> (r: Ledger)
        ensures
            r@ == unknown(self@, declaration@, position@),
    {
        let ghost before = self@;
        let Ledger { scope, errors, declarations, notices } = self;
        let mut notices = notices;
        let message = glue3("Invalid decorator '", declaration.key.as_str(), "'");
        let notice = ParseError::new(message, position);
        let ghost view = notice@;
        notices.push(notice);
        assert(notice_views(notices@) =~= before.notices.push(view));
        Ledger { scope, errors, declarations, notices }
    }

    /// Closes the ledger of the assignment `entry`, whose value is `value`:
    /// the key, and the errors about the file.
    pub fn close(self, entry: &Entry, value: ValueType) -> (r: Evaluated)
        ensures
            r@.key == keyed(entry@, value@, self@),
            r@.notices == self@.notices,
    {
        let Ledger { scope, errors, declarations, notices } = self;
        let valid = errors.len() == 0;
        let key = Key {
            key: entry.key.clone(),
            scope,
            value,
            position: entry.position,
            valid,
            errors,
            decorators: declarations,
        };
        Evaluated { key, notices }
    }
}

/// Gives the assignment its value and holds it to its decorators.
pub fn evaluate<A: Arithmetic>(entry: &Entry, table: &Vec<Decorator>, arith: &A) -> (out:
    Evaluated)
    ensures
        evaluates(arith, decorator_views(table@), entry@, out@),
{
    let raw = chars_of(entry.raw.as_str());
    let (from, to) = trim_bounds(&raw);
    let text = text_of(&raw, from, to);
    let value = coerce_value_type(text.as_str(), arith);
    let mut ledger = Ledger::new();
    let ghost lines = line_views(entry.decorators@);
    let ghost mut tallies: Seq<Tally> = seq![opening()];
    let n = entry.decorators.len();
    let mut i: usize = 0;
    while i < n
        invariant
            i <= n == entry.decorators.len(),
            lines == line_views(entry.decorators@),
            tallies.len() == i + 1,
            tallies[0] == opening(),
            forall|k: int|
                0 <= k < i ==> applies(
                    arith,
                    decorator_views(table@),
                    value@,
                    lines[k],
                    #[trigger] tallies[k],
                    tallies[k + 1],
                ),
            tallies.last() == ledger@,
        decreases n - i,
    {
        let line = &entry.decorators[i];
        let ghost before = ledger@;
        let declaration = crate::decorators::parse(line.text.as_str(), arith);
        let ghost declared = declaration@;
        assert(lines[i as int] == line@);
        match find(table, &declaration.key) {
            Some(decorator) => {
                let result = decorator.validate(&value, &declaration.value, arith);
                let ghost out = result@;
                ledger = ledger.accept(decorator, declaration, result);
                assert(declares(arith, lines[i as int].text, declared) && errors_of(out)
                    == errors_of(out));
            },
            None => {
                ledger = ledger.reject(&declaration, line.position);
                assert(declares(arith, lines[i as int].text, declared) && errors_of(
                    OutcomeView::Pass,
                ) == errors_of(OutcomeView::Pass));
            },
        }
        proof {
            let after = ledger@;
            assert(applies(arith, decorator_views(table@), value@, lines[i as int], before, after));
            let earlier = tallies;
            tallies = tallies.push(after);
            assert forall|k: int| 0 <= k < i + 1 implies applies(
                arith,
                decorator_views(table@),
                value@,
                lines[k],
                #[trigger] tallies[k],
                tallies[k + 1],
            ) by {
                if k < i {
                    assert(tallies[k] == earlier[k]);
                    assert(tallies[k + 1] == earlier[k + 1]);
                }
            }
        }
        i += 1;
    }
    let ghost seen = value@;
    let out = ledger.close(entry, value);
    proof {
        assert(tallied(arith, decorator_views(table@), seen, lines, tallies));
        assert(out@.key == keyed(entry@, seen, tallies.last()));
    }
    out
}

/// The place of the first key of `keys` that is named `name`, or the length
/// of `keys` if none is.
pub open spec fn name_place(keys: Seq<KeyView>, name: Seq<char>) -> int
    decreases keys.len(),
{
    if keys.len() == 0 {
        0
    } else if keys[0].key == name {
        0
    } else {
        1 + name_place(keys.drop_first(), name)
    }
}

/// Whether a key of `keys` is named `name`.
pub open spec fn holds_name(keys: Seq<KeyView>, name: Seq<char>) -> bool {
    name_place(keys, name) < keys.len()
}

/// `keys` without the first key that is named `name`.
pub open spec fn without_name(keys: Seq<KeyView>, name: Seq<char>) -> Seq<KeyView> {
    if holds_name(keys, name) {
        keys.remove(name_place(keys, name))
    } else {
        keys
    }
}

pub proof fn lemma_name_place(keys: Seq<KeyView>, name: Seq<char>)
    ensures
        0 <= name_place(keys, name) <= keys.len(),
        name_place(keys, name) < keys.len() ==> keys[name_place(keys, name)].key == name,
        forall|i: int| 0 <= i < name_place(keys, name) ==> keys[i].key != name,
    decreases keys.len(),
{
    if keys.len() > 0 && keys[0].key != name {
        let rest = keys.drop_first();
        lemma_name_place(rest, name);
        assert forall|i: int| 0 <= i < name_place(keys, name) implies keys[i].key != name by {
            if i > 0 {
                assert(keys[i] == rest[i - 1]);
            }
        }
    }
}

/// A place that holds the name, with none before it that does, is the place
/// of the name.
pub proof fn lemma_name_place_is(keys: Seq<KeyView>, name: Seq<char>, k: int)
    requires
        0 <= k <= keys.len(),
        k < keys.len() ==> keys[k].key == name,
        forall|i: int| 0 <= i < k ==> keys[i].key != name,
    ensures
        name_place(keys, name) == k,
{
    lemma_name_place(keys, name);
}

/// The message for a key that is assigned again.
pub open spec fn duplicate_key(name: Seq<char>) -> Seq<char> {
    "Duplicate key '"@ + name + "'"@
}

/// The result `acc` with one more evaluated assignment. Its key comes last;
/// if a key of that name is there already, the new one takes its place and a
/// warning is given at the place of the new one. The errors about the file
/// are added.
pub open spec fn joined(acc: ResultView, ev: EvaluatedView) -> ResultView {
    ResultView {
        keys: without_name(acc.keys, ev.key.key).push(ev.key),
        valid: acc.valid,
        errors: acc.errors + ev.notices,
        warnings: if holds_name(acc.keys, ev.key.key) {
            acc.warnings.push(
                NoticeView { message: duplicate_key(ev.key.key), place: ev.key.place },
            )
        } else {
            acc.warnings
        },
    }
}

/// The result with the evaluated assignments `evs`, joined in order.
pub open spec fn gathered(evs: Seq<EvaluatedView>) -> ResultView
    decreases evs.len(),
{
    if evs.len() == 0 {
        blank()
    } else {
        joined(gathered(evs.drop_last()), evs.last())
    }
}

/// Whether every key is valid.
pub open spec fn all_valid(keys: Seq<KeyView>) -> bool {
    forall|i: int| 0 <= i < keys.len() ==> (#[trigger] keys[i]).valid
}

/// The result with its validity set: it is valid if there is no error about
/// the file and every key is valid.
pub open spec fn sealed(r: ResultView) -> ResultView {
    ResultView { valid: r.errors.len() == 0 && all_valid(r.keys), ..r }
}

/// A key of the name is held where one of the keys has the name.
pub proof fn lemma_holds_name(keys: Seq<KeyView>, name: Seq<char>)
    ensures
        holds_name(keys, name) <==> exists|i: int| 0 <= i < keys.len() && (#[trigger] keys[i]).key
            == name,
{
    lemma_name_place(keys, name);
    if holds_name(keys, name) {
        assert(keys[name_place(keys, name)].key == name);
    }
}

/// Whether no two keys have the same name.
pub open spec fn distinct_names(keys: Seq<KeyView>) -> bool {
    forall|i: int, j: int|
        0 <= i < j < keys.len() ==> (#[trigger] keys[i]).key != (#[trigger] keys[j]).key
}

/// Whether `key` is the key of the last of `evs` that has its name.
pub open spec fn survives(evs: Seq<EvaluatedView>, key: KeyView) -> bool {
    exists|i: int|
        0 <= i < evs.len() && (#[trigger] evs[i]).key == key && forall|j: int|
            i < j < evs.len() ==> (#[trigger] evs[j]).key.key != key.key
}

/// What is left of keys with distinct names when the key of a name is taken
/// out: keys of other names, all of them and no others, still with distinct
/// names.
pub proof fn lemma_without_name(keys: Seq<KeyView>, name: Seq<char>)
    requires
        distinct_names(keys),
    ensures
        distinct_names(without_name(keys, name)),
        without_name(keys, name).len() == keys.len() - (if holds_name(keys, name) {
            1int
        } else {
            0int
        }),
        forall|k: int|
            0 <= k < without_name(keys, name).len() ==> (#[trigger] without_name(
                keys,
                name,
            )[k]).key != name,
        forall|k: int|
            0 <= k < without_name(keys, name).len() ==> keys.contains(
                #[trigger] without_name(keys, name)[k],
            ),
        forall|m: int|
            0 <= m < keys.len() && (#[trigger] keys[m]).key != name ==> without_name(
                keys,
                name,
            ).contains(keys[m]),
{
    lemma_name_place(keys, name);
    let at = name_place(keys, name);
    let kept = without_name(keys, name);
    if holds_name(keys, name) {
        assert forall|k: int| 0 <= k < kept.len() implies (#[trigger] kept[k]).key != name
            && keys.contains(kept[k]) by {
            let m = if k >= at {
                k + 1
            } else {
                k
            };
            assert(kept[k] == keys[m]);
            if m < at {
                assert(keys[m].key != keys[at].key);
            } else {
                assert(keys[at].key != keys[m].key);
            }
        }
        assert forall|i: int, j: int| 0 <= i < j < kept.len() implies (#[trigger] kept[i]).key != (
        #[trigger] kept[j]).key by {
            let a = if i >= at {
                i + 1
            } else {
                i
            };
            let b = if j >= at {
                j + 1
            } else {
                j
            };
            assert(kept[i] == keys[a]);
            assert(kept[j] == keys[b]);
            assert(keys[a].key != keys[b].key);
        }
        assert forall|m: int| 0 <= m < keys.len() && (#[trigger] keys[m]).key
            != name implies kept.contains(keys[m]) by {
            let k = if m > at {
                m - 1
            } else {
                m
            };
            assert(kept[k] == keys[m]);
        }
    } else {
        assert forall|k: int| 0 <= k < kept.len() implies (#[trigger] kept[k]).key != name
            && keys.contains(kept[k]) by {
            assert(kept[k] == keys[k]);
        }
        assert forall|m: int| 0 <= m < keys.len() && (#[trigger] keys[m]).key
            != name implies kept.contains(keys[m]) by {
            assert(kept[m] == keys[m]);
        }
    }
}

/// Of the keys that are gathered: no two have the same name; each is the
/// last assignment of its name, as it was evaluated; every assignment either
/// is among them or has given a warning; and the name of every assignment is
/// the name of one of them.
pub proof fn law_one_key_for_each_name(evs: Seq<EvaluatedView>)
    ensures
        distinct_names(gathered(evs).keys),
        gathered(evs).keys.len() + gathered(evs).warnings.len() == evs.len(),
        forall|k: int|
            0 <= k < gathered(evs).keys.len() ==> survives(evs, #[trigger] gathered(evs).keys[k]),
        forall|i: int|
            0 <= i < evs.len() ==> holds_name(gathered(evs).keys, (#[trigger] evs[i]).key.key),
    decreases evs.len(),
{
    if evs.len() > 0 {
        let front = evs.drop_last();
        let ev = evs.last();
        let name = ev.key.key;
        law_one_key_for_each_name(front);
        let acc = gathered(front);
        let kept = without_name(acc.keys, name);
        let keys = gathered(evs).keys;
        lemma_without_name(acc.keys, name);
        assert(keys == kept.push(ev.key));
        assert forall|i: int, j: int| 0 <= i < j < keys.len() implies (#[trigger] keys[i]).key != (
        #[trigger] keys[j]).key by {
            assert(keys[i] == kept[i]);
            if j < kept.len() {
                assert(keys[j] == kept[j]);
            }
        }
        assert forall|k: int| 0 <= k < keys.len() implies survives(evs, #[trigger] keys[k]) by {
            if k < kept.len() {
                assert(keys[k] == kept[k]);
                assert(acc.keys.contains(kept[k]));
                let m = choose|m: int| 0 <= m < acc.keys.len() && acc.keys[m] == kept[k];
                assert(survives(front, gathered(front).keys[m]));
                assert(kept[k].key != name);
                lemma_survives_on(front, ev, acc.keys[m]);
                assert(front.push(ev) =~= evs);
            } else {
                assert(keys[k] == ev.key);
                assert(evs[evs.len() - 1].key == keys[k]);
            }
        }
        assert forall|i: int| 0 <= i < evs.len() implies holds_name(
            keys,
            (#[trigger] evs[i]).key.key,
        ) by {
            lemma_holds_name(keys, evs[i].key.key);
            if i < front.len() && evs[i].key.key != name {
                assert(evs[i] == front[i]);
                lemma_holds_name(acc.keys, front[i].key.key);
                let m = choose|m: int|
                    0 <= m < acc.keys.len() && (#[trigger] acc.keys[m]).key == front[i].key.key;
                assert(kept.contains(acc.keys[m]));
                let k = choose|k: int| 0 <= k < kept.len() && kept[k] == acc.keys[m];
                assert(keys[k] == kept[k]);
            } else {
                assert(keys[keys.len() - 1].key == name);
            }
        }
    }
}

/// A key that is the last of its name among `front` is so among `front`
/// with one more assignment of another name.
pub proof fn lemma_survives_on(front: Seq<EvaluatedView>, ev: EvaluatedView, key: KeyView)
    requires
        survives(front, key),
        key.key != ev.key.key,
    ensures
        survives(front.push(ev), key),
{
    let evs = front.push(ev);
    let i = choose|i: int|
        0 <= i < front.len() && (#[trigger] front[i]).key == key && forall|j: int|
            i < j < front.len() ==> (#[trigger] front[j]).key.key != key.key;
    assert(evs[i] == front[i]);
    assert forall|j: int| i < j < evs.len() implies (#[trigger] evs[j]).key.key != key.key by {
        if j < front.len() {
            assert(evs[j] == front[j]);
        }
    }
}

/// Whether the assignments at `a` and `b` are the one pair of assignments of
/// `evs` that have the same name.
pub open spec fn one_repeat(evs: Seq<EvaluatedView>, a: int, b: int) -> bool {
    &&& 0 <= a < b < evs.len()
    &&& evs[a].key.key == evs[b].key.key
    &&& forall|i: int, j: int|
        0 <= i < j < evs.len() && !(i == a && j == b) ==> (#[trigger] evs[i]).key.key != (
        #[trigger] evs[j]).key.key
}

/// The warning for the assignment `ev`, where its name is assigned again.
pub open spec fn repeat_warning(ev: EvaluatedView) -> NoticeView {
    NoticeView { message: duplicate_key(ev.key.key), place: ev.key.place }
}

/// Where one pair of assignments has the same name, the first `k`
/// assignments give no warning up to the second of the pair, and from there
/// on the one warning for it.
pub proof fn lemma_warnings_of_one_repeat(evs: Seq<EvaluatedView>, a: int, b: int, k: int)
    requires
        one_repeat(evs, a, b),
        0 <= k <= evs.len(),
    ensures
        gathered(evs.take(k)).warnings == (if k > b {
            seq![repeat_warning(evs[b])]
        } else {
            Seq::empty()
        }),
    decreases k,
{
    if k > 0 {
        let given = evs.take(k);
        let front = evs.take(k - 1);
        let ev = evs[k - 1];
        assert(given.drop_last() =~= front);
        assert(given.last() == ev);
        lemma_warnings_of_one_repeat(evs, a, b, k - 1);
        law_one_key_for_each_name(front);
        let acc = gathered(front);
        lemma_holds_name(acc.keys, ev.key.key);
        if k - 1 == b {
            assert(front[a] == evs[a]);
            assert(holds_name(acc.keys, front[a].key.key));
            assert(Seq::<NoticeView>::empty().push(repeat_warning(evs[b])) =~= seq![
                repeat_warning(evs[b]),
            ]);
        } else {
            if holds_name(acc.keys, ev.key.key) {
                let m = choose|m: int|
                    0 <= m < acc.keys.len() && (#[trigger] acc.keys[m]).key == ev.key.key;
                assert(survives(front, gathered(front).keys[m]));
                let i = choose|i: int|
                    0 <= i < front.len() && (#[trigger] front[i]).key == acc.keys[m];
                assert(front[i] == evs[i]);
                assert(evs[i].key.key != evs[k - 1].key.key);
            }
        }
    }
}

/// Where one name is assigned twice and every other name once, there is
/// exactly one warning, for the second assignment of that name and at its
/// place, and one key less than there are assignments.
pub proof fn law_one_repeat_gives_one_warning(evs: Seq<EvaluatedView>, a: int, b: int)
    requires
        one_repeat(evs, a, b),
    ensures
        gathered(evs).warnings == seq![repeat_warning(evs[b])],
        gathered(evs).keys.len() == evs.len() - 1,
{
    lemma_warnings_of_one_repeat(evs, a, b, evs.len() as int);
    assert(evs.take(evs.len() as int) =~= evs);
    law_one_key_for_each_name(evs);
}

/// The errors about the file that an assignment gave are all among the
/// errors of the result: a declaration of a decorator that is not known
/// leaves the result invalid.
pub proof fn law_unknown_decorator_invalidates(evs: Seq<EvaluatedView>, i: int)
    requires
        0 <= i < evs.len(),
        evs[i].notices.len() > 0,
    ensures
        gathered(evs).errors.len() >= evs[i].notices.len(),
        !sealed(gathered(evs)).valid,
    decreases evs.len(),
{
    if i < evs.len() - 1 {
        assert(evs.drop_last()[i] == evs[i]);
        law_unknown_decorator_invalidates(evs.drop_last(), i);
    }
}

/// A declaration of a decorator that is not known gives one error about the
/// file and leaves the key as it was: its errors, its scope and its list of
/// declarations.
pub proof fn law_unknown_decorator_spares_key<A: Arithmetic>(
    arith: &A,
    table: Seq<DecoratorView>,
    value: ValueView,
    line: LineView,
    before: Tally,
    after: Tally,
)
    requires
        applies(arith, table, value, line, before, after),
        forall|declaration: DeclarationView| #[trigger]
            declares(arith, line.text, declaration) ==> found(table, declaration.key) is None,
    ensures
        after.errors == before.errors,
        after.scope == before.scope,
        after.declarations == before.declarations,
        after.notices.len() == before.notices.len() + 1,
        after.notices.last().place == line.place,
{
}

/// The errors about the file never get fewer from one decorator line to a
/// later one.
pub proof fn lemma_notices_grow<A: Arithmetic>(
    arith: &A,
    table: Seq<DecoratorView>,
    value: ValueView,
    lines: Seq<LineView>,
    tallies: Seq<Tally>,
    a: int,
    b: int,
)
    requires
        tallied(arith, table, value, lines, tallies),
        0 <= a <= b <= lines.len(),
    ensures
        tallies[a].notices.len() <= tallies[b].notices.len(),
    decreases b - a,
{
    if a < b {
        lemma_notices_grow(arith, table, value, lines, tallies, a, b - 1);
        assert(applies(arith, table, value, lines[b - 1], tallies[b - 1], tallies[b]));
    }
}

/// An assignment with a decorator line whose name is not the name of a
/// decorator evaluates to at least one error about the file.
pub proof fn law_unknown_name_gives_error<A: Arithmetic>(
    arith: &A,
    table: Seq<DecoratorView>,
    entry: EntryView,
    out: EvaluatedView,
    j: int,
)
    requires
        evaluates(arith, table, entry, out),
        0 <= j < entry.decorators.len(),
        found(table, name_of(entry.decorators[j].text)) is None,
    ensures
        out.notices.len() > 0,
{
    let (value, tallies) = choose|value: ValueView, tallies: Seq<Tally>|
        #![trigger keyed(entry, value, tallies.last())]
        {
            &&& coerces(arith, trimmed(entry.raw), value)
            &&& tallied(arith, table, value, entry.decorators, tallies)
            &&& out.key == keyed(entry, value, tallies.last())
            &&& out.notices == tallies.last().notices
        };
    let lines = entry.decorators;
    assert(applies(arith, table, value, lines[j], tallies[j], tallies[j + 1]));
    lemma_notices_grow(arith, table, value, lines, tallies, j + 1, lines.len() as int);
}

/// Where the assignments stand in the order of their lines, so do the keys
/// that are gathered, and each of them stands on the line of an assignment.
pub proof fn lemma_gathered_in_order(evs: Seq<EvaluatedView>)
    requires
        forall|i: int, j: int|
            0 <= i < j < evs.len() ==> (#[trigger] evs[i]).key.place.line < (
            #[trigger] evs[j]).key.place.line,
    ensures
        forall|i: int, j: int|
            0 <= i < j < gathered(evs).keys.len() ==> (
            #[trigger] gathered(evs).keys[i]).place.line < (
            #[trigger] gathered(evs).keys[j]).place.line,
        forall|k: int|
            0 <= k < gathered(evs).keys.len() ==> exists|i: int|
                0 <= i < evs.len() && (#[trigger] evs[i]).key.place.line == (
                #[trigger] gathered(evs).keys[k]).place.line,
    decreases evs.len(),
{
    if evs.len() > 0 {
        let front = evs.drop_last();
        let ev = evs.last();
        let name = ev.key.key;
        assert forall|i: int, j: int| 0 <= i < j < front.len() implies (
        #[trigger] front[i]).key.place.line < (#[trigger] front[j]).key.place.line by {
            assert(front[i] == evs[i]);
            assert(front[j] == evs[j]);
        }
        lemma_gathered_in_order(front);
        let acc = gathered(front);
        let kept = without_name(acc.keys, name);
        let keys = gathered(evs).keys;
        lemma_name_place(acc.keys, name);
        let at = name_place(acc.keys, name);
        assert forall|k: int| 0 <= k < kept.len() implies exists|i: int|
            0 <= i < front.len() && (#[trigger] front[i]).key.place.line == (
            #[trigger] kept[k]).place.line by {
            let m = if holds_name(acc.keys, name) && k >= at {
                k + 1
            } else {
                k
            };
            assert(kept[k] == acc.keys[m]);
            let i = choose|i: int|
                0 <= i < front.len() && (#[trigger] front[i]).key.place.line
                    == acc.keys[m].place.line;
            assert(front[i].key.place.line == kept[k].place.line);
        }
        assert forall|k: int| 0 <= k < keys.len() implies exists|i: int|
            0 <= i < evs.len() && (#[trigger] evs[i]).key.place.line == (
            #[trigger] keys[k]).place.line by {
            if k < kept.len() {
                assert(keys[k] == kept[k]);
                let i = choose|i: int|
                    0 <= i < front.len() && (#[trigger] front[i]).key.place.line
                        == kept[k].place.line;
                assert(evs[i] == front[i]);
            } else {
                assert(evs[evs.len() - 1].key.place.line == keys[k].place.line);
            }
        }
        assert forall|i: int, j: int| 0 <= i < j < keys.len() implies (
        #[trigger] keys[i]).place.line < (#[trigger] keys[j]).place.line by {
            let a = if holds_name(acc.keys, name) && i >= at {
                i + 1
            } else {
                i
            };
            assert(keys[i] == kept[i]);
            assert(kept[i] == acc.keys[a]);
            if j < kept.len() {
                let b = if holds_name(acc.keys, name) && j >= at {
                    j + 1
                } else {
                    j
                };
                assert(keys[j] == kept[j]);
                assert(kept[j] == acc.keys[b]);
            } else {
                let e = choose|e: int|
                    0 <= e < front.len() && (#[trigger] front[e]).key.place.line
                        == kept[i].place.line;
                assert(front[e] == evs[e]);
                assert(evs[e].key.place.line < evs[evs.len() - 1].key.place.line);
            }
        }
    }
}

/// Joins one more evaluated assignment to the result.
pub fn join(result: ParseResult, ev: Evaluated) -> (r: ParseResult)
    ensures
        r@ == joined(result@, ev@),
{
    let ParseResult { keys, valid, errors, warnings } = result;
    let Evaluated { key, notices } = ev;
    let mut keys = keys;
    let mut errors = errors;
    let mut warnings = warnings;
    let mut notices = notices;
    let ghost before = key_views(keys@);
    let ghost new = key@;
    let n = keys.len();
    let mut i: usize = 0;
    while i < n && keys[i].key != key.key
        invariant
            i <= n == keys.len(),
            forall|k: int| 0 <= k < i ==> key_views(keys@)[k].key != key.key@,
        decreases n - i,
    {
        i += 1;
    }
    proof {
        lemma_name_place_is(before, key.key@, i as int);
    }
    if i < n {
        let message = glue3("Duplicate key '", key.key.as_str(), "'");
        let ghost given = notice_views(warnings@);
        let warning = ParseError::new(message, key.position);
        let ghost view = warning@;
        warnings.push(warning);
        assert(notice_views(warnings@) =~= given.push(view));
        keys.remove(i);
        assert(key_views(keys@) =~= before.remove(i as int));
    }
    let ghost kept = key_views(keys@);
    keys.push(key);
    assert(key_views(keys@) =~= kept.push(new));
    let ghost seen = notice_views(errors@);
    let ghost added = notice_views(notices@);
    errors.append(&mut notices);
    assert(notice_views(errors@) =~= seen + added);
    ParseResult { keys, valid, errors, warnings }
}

/// Sets the validity of the result.
pub fn seal(result: ParseResult) -> (r: ParseResult)
    ensures
        r@ == sealed(result@),
{
    let mut valid = result.errors.len() == 0;
    let n = result.keys.len();
    let mut i: usize = 0;
    while i < n
        invariant
            i <= n == result.keys.len(),
            valid == (result@.errors.len() == 0 && all_valid(result@.keys.take(i as int))),
        decreases n - i,
    {
        let ghost seen = result@.keys.take(i as int);
        let ghost next = result@.keys.take(i + 1);
        assert(next[i as int] == result.keys[i as int]@);
        assert(forall|k: int| 0 <= k < i ==> next[k] == seen[k]);
        if !result.keys[i].valid {
            valid = false;
        }
        assert(all_valid(next) == (all_valid(seen) && result.keys[i as int].valid)) by {
            if all_valid(next) {
                assert forall|k: int| 0 <= k < seen.len() implies (#[trigger] seen[k]).valid by {
                    assert(next[k].valid);
                }
            }
        }
        i += 1;
    }
    assert(result@.keys.take(n as int) =~= result@.keys);
    let ParseResult { keys, errors, warnings, .. } = result;
    ParseResult { keys, valid, errors, warnings }
}

} // verus!
