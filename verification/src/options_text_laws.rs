//! By their text checked options are told apart.

use crate::number::{decimal, decimal_reads_back};
use crate::options::{
    import_models, injection_model, resolution_model, ImportSourceModel, ModuleResolutionType,
    PropertyValidationMode, ResolvedOptions, StyleResolution,
};
use crate::options_repr::{
    development_pieces, lemma_entries, lemma_items, lemma_text_follows, list_from, mode_pieces,
    opt_aliases, pieces, pieces_from, quoted, same_options, shown_alias, shown_aliases, shown_bool,
    shown_entries, shown_import, shown_imports, shown_injection, shown_items, shown_kind,
    shown_list, shown_naming, shown_object, shown_opt, shown_options, shown_pair, shown_resolution,
    shown_some, shown_validation, shown_value, source_pieces, value_pieces, Quotes,
};
use crate::text::digit;
use crate::value::{opt_text, EvalValue, Val};
use vstd::prelude::*;

verus! {

/// Whether two texts are the same, or neither begins with the other.
#[verifier::opaque]
pub open spec fn apart(a: Seq<char>, b: Seq<char>) -> bool {
    a.is_prefix_of(b) || b.is_prefix_of(a) ==> a == b
}

/// Whether quotes tell texts apart: a quoted text starts with a quote, and never with
/// another quoted text.
pub open spec fn tells_apart(q: Quotes) -> bool {
    &&& forall|s: Seq<char>| (#[trigger] q(s)).len() > 0 && q(s)[0] == '"'
    &&& forall|s: Seq<char>, t: Seq<char>|
        apart(#[trigger] q(s), #[trigger] q(t)) && (q(s) == q(t) ==> s == t)
}

proof fn lemma_behind(a: Seq<char>, b: Seq<char>, c: Seq<char>, d: Seq<char>)
    requires
        a == b || apart(a, b),
        a == b ==> c == d || apart(c, d),
    ensures
        apart(a + c, b + d),
        a + c == b + d ==> a == b && c == d,
{
    reveal(apart);
    let x = a + c;
    let y = b + d;
    if x.is_prefix_of(y) || y.is_prefix_of(x) {
        let n = if a.len() < b.len() {
            a.len()
        } else {
            b.len()
        };
        assert forall|i: int| 0 <= i < n implies a[i] == b[i] by {
            assert(x[i] == a[i]);
            assert(y[i] == b[i]);
        }
        if a.len() <= b.len() {
            assert(a =~= b.take(a.len() as int));
        } else {
            assert(b =~= a.take(b.len() as int));
        }
        assert(a == b);
        if x.is_prefix_of(y) {
            assert(c =~= x.skip(a.len() as int));
            assert(d =~= y.skip(a.len() as int));
            assert forall|i: int| 0 <= i < c.len() implies c[i] == d[i] by {
                assert(x[a.len() + i] == y[a.len() + i]);
            }
            assert(c =~= d.take(c.len() as int));
        } else {
            assert forall|i: int| 0 <= i < d.len() implies c[i] == d[i] by {
                assert(x[a.len() + i] == y[a.len() + i]);
            }
            assert(d =~= c.take(d.len() as int));
        }
    }
    if x == y {
        assert(x.is_prefix_of(y)) by {
            assert(y.take(x.len() as int) =~= x);
        }
    }
}

proof fn lemma_first(a: Seq<char>, b: Seq<char>)
    requires
        a.len() > 0,
        b.len() > 0,
        a[0] != b[0],
    ensures
        apart(a, b),
        a != b,
{
    reveal(apart);
}

proof fn lemma_same(a: Seq<char>)
    ensures
        apart(a, a),
{
    reveal(apart);
}

proof fn lemma_pieces(v: Seq<Seq<char>>, w: Seq<Seq<char>>, k: int)
    requires
        v.len() == w.len(),
        0 <= k <= v.len(),
        forall|i: int| 0 <= i < v.len() ==> #[trigger] v[i] == w[i] || apart(v[i], w[i]),
    ensures
        apart(pieces_from(v, k), pieces_from(w, k)),
        pieces_from(v, k) == pieces_from(w, k) ==> forall|i: int|
            k <= i < v.len() ==> #[trigger] v[i] == w[i],
    decreases v.len() - k,
{
    if k >= v.len() {
        lemma_same(pieces_from(v, k));
    } else {
        lemma_pieces(v, w, k + 1);
        assert(v[k] == w[k] || apart(v[k], w[k]));
        lemma_behind(v[k], w[k], pieces_from(v, k + 1), pieces_from(w, k + 1));
    }
}

proof fn lemma_three(a: Seq<char>, b: Seq<char>, c: Seq<char>, d: Seq<char>)
    requires
        apart(b, c),
    ensures
        apart(pieces(seq![a, b, d]), pieces(seq![a, c, d])),
        pieces(seq![a, b, d]) == pieces(seq![a, c, d]) ==> b == c,
{
    let v = seq![a, b, d];
    let w = seq![a, c, d];
    lemma_pieces(v, w, 0);
    if pieces(v) == pieces(w) {
        assert(v[1] == w[1]);
    }
}

proof fn lemma_five(
    a: Seq<char>,
    b: Seq<char>,
    b2: Seq<char>,
    c: Seq<char>,
    d: Seq<char>,
    d2: Seq<char>,
    e: Seq<char>,
)
    requires
        apart(b, b2),
        apart(d, d2),
    ensures
        apart(pieces(seq![a, b, c, d, e]), pieces(seq![a, b2, c, d2, e])),
        pieces(seq![a, b, c, d, e]) == pieces(seq![a, b2, c, d2, e]) ==> b == b2 && d == d2,
{
    let v = seq![a, b, c, d, e];
    let w = seq![a, b2, c, d2, e];
    lemma_pieces(v, w, 0);
    if pieces(v) == pieces(w) {
        assert(v[1] == w[1] && v[3] == w[3]);
    }
}

/// Whether a text can stand in a list.
spec fn is_item(s: Seq<char>) -> bool {
    s.len() > 0 && s[0] != ']'
}

proof fn lemma_list_from(v: Seq<Seq<char>>, w: Seq<Seq<char>>, k: int)
    requires
        0 <= k <= v.len(),
        k <= w.len(),
        forall|i: int| 0 <= i < v.len() && i < w.len() ==> apart(#[trigger] v[i], w[i]),
        forall|i: int| 0 <= i < v.len() ==> is_item(#[trigger] v[i]),
        forall|i: int| 0 <= i < w.len() ==> is_item(#[trigger] w[i]),
    ensures
        apart(list_from(v, k), list_from(w, k)),
        list_from(v, k) == list_from(w, k) ==> v.len() == w.len() && forall|i: int|
            k <= i < v.len() ==> #[trigger] v[i] == w[i],
    decreases v.len() - k,
{
    reveal_strlit("]");
    reveal_strlit(", ");
    if k < v.len() && k < w.len() {
        lemma_list_from(v, w, k + 1);
        assert(apart(v[k], w[k]));
        lemma_behind(v[k], w[k], list_from(v, k + 1), list_from(w, k + 1));
        if k > 0 {
            lemma_behind(
                ", "@,
                ", "@,
                v[k] + list_from(v, k + 1),
                w[k] + list_from(w, k + 1),
            );
        }
    } else if k == v.len() && k == w.len() {
        lemma_same("]"@);
    } else if k < v.len() {
        assert(is_item(v[k]));
        assert(list_from(v, k)[0] != ']');
        lemma_first(list_from(v, k), list_from(w, k));
    } else if k < w.len() {
        assert(is_item(w[k]));
        assert(list_from(w, k)[0] != ']');
        lemma_first(list_from(v, k), list_from(w, k));
    }
}

proof fn lemma_list(v: Seq<Seq<char>>, w: Seq<Seq<char>>)
    requires
        forall|i: int| 0 <= i < v.len() && i < w.len() ==> apart(#[trigger] v[i], w[i]),
        forall|i: int| 0 <= i < v.len() ==> is_item(#[trigger] v[i]),
        forall|i: int| 0 <= i < w.len() ==> is_item(#[trigger] w[i]),
    ensures
        apart(shown_list(v), shown_list(w)),
        shown_list(v) == shown_list(w) ==> v == w,
{
    lemma_list_from(v, w, 0);
    lemma_behind("["@, "["@, list_from(v, 0), list_from(w, 0));
    if shown_list(v) == shown_list(w) {
        assert(v =~= w);
    }
}

proof fn lemma_head(v: Seq<Seq<char>>)
    requires
        v.len() > 0,
        v[0].len() > 0,
    ensures
        pieces(v).len() > 0,
        pieces(v)[0] == v[0][0],
{
}

proof fn lemma_some(a: Option<Seq<char>>, b: Option<Seq<char>>)
    requires
        a is Some && b is Some ==> apart(a->0, b->0),
    ensures
        apart(shown_some(a), shown_some(b)),
        shown_some(a) == shown_some(b) ==> a == b,
{
    reveal_strlit("Some(");
    reveal_strlit("None");
    match (a, b) {
        (Some(x), Some(y)) => {
            lemma_three("Some("@, x, y, ")"@);
        },
        (Some(x), None) => {
            lemma_head(seq!["Some("@, x, ")"@]);
            lemma_first(shown_some(a), shown_some(b));
        },
        (None, Some(y)) => {
            lemma_head(seq!["Some("@, y, ")"@]);
            lemma_first(shown_some(a), shown_some(b));
        },
        (None, None) => {
            lemma_same(shown_some(None));
        },
    }
}

proof fn lemma_opt(a: Option<Seq<char>>, b: Option<Seq<char>>, q: Quotes)
    requires
        tells_apart(q),
    ensures
        apart(shown_opt(a, q), shown_opt(b, q)),
        shown_opt(a, q) == shown_opt(b, q) ==> a == b,
{
    let x = match a {
        Some(s) => Some(q(s)),
        None => None,
    };
    let y = match b {
        Some(s) => Some(q(s)),
        None => None,
    };
    lemma_some(x, y);
}

proof fn lemma_bool(a: bool, b: bool)
    ensures
        apart(shown_bool(a), shown_bool(b)),
        shown_bool(a) == shown_bool(b) ==> a == b,
{
    reveal(shown_bool);
    reveal_strlit("true");
    reveal_strlit("false");
    if a != b {
        lemma_first(shown_bool(a), shown_bool(b));
    } else {
        lemma_same(shown_bool(a));
    }
}

proof fn lemma_decimal(n: nat, m: nat)
    ensures
        apart(decimal(n) + " "@, decimal(m) + " "@),
        decimal(n) + " "@ == decimal(m) + " "@ ==> n == m,
{
    reveal(apart);
    reveal_strlit(" ");
    let d = decimal(n);
    let e = decimal(m);
    let x = d + " "@;
    let y = e + " "@;
    decimal_reads_back(n);
    decimal_reads_back(m);
    if d.len() < e.len() {
        assert(x[d.len() as int] == ' ');
        assert(y[d.len() as int] == e[d.len() as int]);
        assert(digit(e[d.len() as int]));
    } else if e.len() < d.len() {
        assert(y[e.len() as int] == ' ');
        assert(x[e.len() as int] == d[e.len() as int]);
        assert(digit(d[e.len() as int]));
    } else {
        if x.is_prefix_of(y) || y.is_prefix_of(x) {
            assert(x =~= y);
        }
        if x == y {
            assert(d =~= x.take(d.len() as int));
            assert(e =~= x.take(d.len() as int));
        }
    }
}

proof fn lemma_resolution(a: StyleResolution, b: StyleResolution)
    ensures
        apart(shown_resolution(a), shown_resolution(b)),
        shown_resolution(a) == shown_resolution(b) ==> a == b,
{
    reveal_strlit("PropertySpecificity");
    reveal_strlit("ApplicationOrder");
    reveal_strlit("LegacyExpandShorthands");
    if a != b {
        lemma_first(shown_resolution(a), shown_resolution(b));
    } else {
        lemma_same(shown_resolution(a));
    }
}

proof fn lemma_validation(a: PropertyValidationMode, b: PropertyValidationMode)
    ensures
        apart(shown_validation(a), shown_validation(b)),
        shown_validation(a) == shown_validation(b) ==> a == b,
{
    reveal_strlit("Silent");
    reveal_strlit("Warn");
    reveal_strlit("Throw");
    if a != b {
        lemma_first(shown_validation(a), shown_validation(b));
    } else {
        lemma_same(shown_validation(a));
    }
}

proof fn lemma_module_kind(a: ModuleResolutionType, b: ModuleResolutionType)
    ensures
        apart(shown_kind(a), shown_kind(b)),
        shown_kind(a) == shown_kind(b) ==> a == b,
{
    reveal_strlit("CommonJs");
    reveal_strlit("Haste");
    if a != b {
        lemma_first(shown_kind(a), shown_kind(b));
    } else {
        lemma_same(shown_kind(a));
    }
}

/// Whether a value can be stored: it holds no group of variables and no function.
pub open spec fn stored(v: Val) -> bool
    decreases v,
{
    match v {
        Val::Arr(items) => forall|i: int| 0 <= i < items.len() ==> stored(#[trigger] items[i]),
        Val::Obj(m) => forall|i: int|
            0 <= i < m.entries.len() ==> stored((#[trigger] m.entries[i]).1),
        Val::Proxy(_) | Val::Callable(_) => false,
        _ => true,
    }
}

proof fn lemma_stored(v: EvalValue)
    ensures
        stored(v.model()),
    decreases v,
{
    match v {
        EvalValue::Arr(items) => {
            let m = v.model()->Arr_0;
            assert forall|i: int| 0 <= i < m.len() implies stored(#[trigger] m[i]) by {
                assert(m[i] == items@[i].model());
                assert(decreases_to!(v => v->Arr_0));
                assert(decreases_to!(items => items@[i]));
                lemma_stored(items@[i]);
            }
        },
        EvalValue::Obj(obj) => {
            let m = obj.model();
            assert(v.model() == Val::Obj(m));
            assert forall|i: int| 0 <= i < m.entries.len() implies stored(
                (#[trigger] m.entries[i]).1,
            ) by {
                assert(m.entries[i].1 == obj.items@[i].1.model());
                assert(decreases_to!(v => v->Obj_0));
                assert(decreases_to!(obj => obj.items));
                assert(decreases_to!(obj.items => obj.items@[i]));
                lemma_stored(obj.items@[i].1);
            }
        },
        _ => {},
    }
}

/// The first letter of a shown value.
spec fn kind_letter(v: Val) -> char {
    match v {
        Val::Undefined => 'U',
        Val::Null | Val::Num(_) => 'N',
        Val::Bool(_) => 'B',
        Val::Str(_) => 'S',
        Val::Arr(_) => 'A',
        _ => 'O',
    }
}

proof fn lemma_kind(v: Val, q: Quotes)
    requires
        stored(v),
    ensures
        shown_value(v, q).len() > 2,
        shown_value(v, q)[0] == kind_letter(v),
        v is Null ==> shown_value(v, q)[2] == 'l',
        v is Num ==> shown_value(v, q)[2] == 'm',
{
    reveal_strlit("Undefined");
    reveal_strlit("Null");
    reveal_strlit("Bool(");
    reveal_strlit("Num(JsNumber { bits: ");
    reveal_strlit("Str(");
    reveal_strlit("Arr(");
    reveal_strlit("Obj(");
}

proof fn lemma_third(a: Seq<char>, b: Seq<char>)
    requires
        a.len() > 2,
        b.len() > 2,
        a[2] != b[2],
    ensures
        apart(a, b),
        a != b,
{
    reveal(apart);
}

proof fn lemma_different_kinds(a: Val, b: Val, q: Quotes)
    requires
        stored(a),
        stored(b),
        kind_letter(a) != kind_letter(b) || (a is Null && b is Num) || (a is Num
            && b is Null),
    ensures
        apart(shown_value(a, q), shown_value(b, q)),
        shown_value(a, q) != shown_value(b, q),
{
    lemma_kind(a, q);
    lemma_kind(b, q);
    if kind_letter(a) != kind_letter(b) {
        lemma_first(shown_value(a, q), shown_value(b, q));
    } else {
        lemma_third(shown_value(a, q), shown_value(b, q));
    }
}

proof fn lemma_pair(
    a: Seq<char>,
    b: Seq<char>,
    c: Seq<char>,
    d: Seq<char>,
)
    requires
        apart(a, c),
        apart(b, d),
    ensures
        apart(shown_pair(a, b), shown_pair(c, d)),
        shown_pair(a, b) == shown_pair(c, d) ==> a == c && b == d,
        is_item(shown_pair(a, b)),
{
    lemma_five("("@, a, c, ", "@, b, d, ")"@);
    reveal_strlit("(");
    lemma_head(seq!["("@, a, ", "@, b, ")"@]);
}

proof fn lemma_value(a: Val, b: Val, q: Quotes)
    requires
        tells_apart(q),
        stored(a),
        stored(b),
    ensures
        apart(shown_value(a, q), shown_value(b, q)),
        shown_value(a, q) == shown_value(b, q) ==> a == b,
    decreases a, 1int,
{
    match (a, b) {
        (Val::Undefined, Val::Undefined) | (Val::Null, Val::Null) => {
            lemma_same(shown_value(a, q));
        },
        (Val::Bool(x), Val::Bool(y)) => {
            lemma_bool(x, y);
            lemma_three("Bool("@, shown_bool(x), shown_bool(y), ")"@);
        },
        (Val::Num(x), Val::Num(y)) => {
            lemma_decimal(x.bits as nat, y.bits as nat);
            lemma_three(
                "Num(JsNumber { bits: "@,
                decimal(x.bits as nat) + " "@,
                decimal(y.bits as nat) + " "@,
                "})"@,
            );
        },
        (Val::Str(x), Val::Str(y)) => {
            lemma_three("Str("@, q(x), q(y), ")"@);
        },
        (Val::Arr(x), Val::Arr(y)) => {
            lemma_arrays(x, y, q);
            lemma_three(
                "Arr("@,
                shown_list(shown_items(x, x.len() as int, q)),
                shown_list(shown_items(y, y.len() as int, q)),
                ")"@,
            );
        },
        (Val::Obj(x), Val::Obj(y)) => {
            lemma_objects(x.entries, y.entries, q);
            lemma_opt(x.css, y.css, q);
            lemma_five(
                "JsObjectMap { items: "@,
                shown_list(shown_entries(x.entries, x.entries.len() as int, q)),
                shown_list(shown_entries(y.entries, y.entries.len() as int, q)),
                ", css: "@,
                shown_opt(x.css, q),
                shown_opt(y.css, q),
                " }"@,
            );
            lemma_three("Obj("@, shown_object(x, q), shown_object(y, q), ")"@);
        },
        _ => {
            lemma_different_kinds(a, b, q);
        },
    }
}

proof fn lemma_arrays(x: Seq<Val>, y: Seq<Val>, q: Quotes)
    requires
        tells_apart(q),
        forall|i: int| 0 <= i < x.len() ==> stored(#[trigger] x[i]),
        forall|i: int| 0 <= i < y.len() ==> stored(#[trigger] y[i]),
    ensures
        ({
            let v = shown_list(shown_items(x, x.len() as int, q));
            let w = shown_list(shown_items(y, y.len() as int, q));
            apart(v, w) && (v == w ==> x == y)
        }),
    decreases x, 0int,
{
    let v = shown_items(x, x.len() as int, q);
    let w = shown_items(y, y.len() as int, q);
    lemma_items(x, x.len() as int, q);
    lemma_items(y, y.len() as int, q);
    assert forall|i: int| 0 <= i < v.len() && i < w.len() implies apart(#[trigger] v[i], w[i]) by {
        assert(stored(x[i]) && stored(y[i]));
        assert(w[i] == shown_value(y[i], q));
        lemma_value(x[i], y[i], q);
    }
    assert forall|i: int| 0 <= i < v.len() implies is_item(#[trigger] v[i]) by {
        assert(stored(x[i]));
        lemma_kind(x[i], q);
    }
    assert forall|i: int| 0 <= i < w.len() implies is_item(#[trigger] w[i]) by {
        assert(stored(y[i]));
        lemma_kind(y[i], q);
    }
    lemma_list(v, w);
    if v == w {
        assert forall|i: int| 0 <= i < x.len() implies x[i] == y[i] by {
            assert(stored(x[i]) && stored(y[i]));
            assert(v[i] == shown_value(x[i], q));
            assert(w[i] == shown_value(y[i], q));
            lemma_value(x[i], y[i], q);
        }
        assert(x =~= y);
    }
}

proof fn lemma_objects(x: Seq<(Seq<char>, Val)>, y: Seq<(Seq<char>, Val)>, q: Quotes)
    requires
        tells_apart(q),
        forall|i: int| 0 <= i < x.len() ==> stored((#[trigger] x[i]).1),
        forall|i: int| 0 <= i < y.len() ==> stored((#[trigger] y[i]).1),
    ensures
        ({
            let v = shown_list(shown_entries(x, x.len() as int, q));
            let w = shown_list(shown_entries(y, y.len() as int, q));
            apart(v, w) && (v == w ==> x == y)
        }),
    decreases x, 0int,
{
    let v = shown_entries(x, x.len() as int, q);
    let w = shown_entries(y, y.len() as int, q);
    lemma_entries(x, x.len() as int, q);
    lemma_entries(y, y.len() as int, q);
    assert forall|i: int| 0 <= i < v.len() && i < w.len() implies apart(#[trigger] v[i], w[i]) by {
        assert(stored(x[i].1) && stored(y[i].1));
        lemma_value(x[i].1, y[i].1, q);
        assert(w[i] == shown_pair(q(y[i].0), shown_value(y[i].1, q)));
        lemma_pair(q(x[i].0), shown_value(x[i].1, q), q(y[i].0), shown_value(y[i].1, q));
    }
    assert forall|i: int| 0 <= i < v.len() implies is_item(#[trigger] v[i]) by {
        let c = shown_value(x[i].1, q);
        lemma_same(c);
        lemma_pair(q(x[i].0), c, q(x[i].0), c);
    }
    assert forall|i: int| 0 <= i < w.len() implies is_item(#[trigger] w[i]) by {
        let c = shown_value(y[i].1, q);
        lemma_same(c);
        lemma_pair(q(y[i].0), c, q(y[i].0), c);
    }
    lemma_list(v, w);
    if shown_list(v) == shown_list(w) {
        assert forall|i: int| 0 <= i < x.len() implies x[i] == y[i] by {
            assert(stored(x[i].1) && stored(y[i].1));
            assert(v[i] == shown_pair(q(x[i].0), shown_value(x[i].1, q)));
            assert(w[i] == shown_pair(q(y[i].0), shown_value(y[i].1, q)));
            lemma_value(x[i].1, y[i].1, q);
            lemma_pair(q(x[i].0), shown_value(x[i].1, q), q(y[i].0), shown_value(y[i].1, q));
        }
        assert(x =~= y);
    }
}

proof fn lemma_import(a: ImportSourceModel, b: ImportSourceModel, q: Quotes)
    requires
        tells_apart(q),
    ensures
        apart(shown_import(a, q), shown_import(b, q)),
        shown_import(a, q) == shown_import(b, q) ==> a == b,
        is_item(shown_import(a, q)),
{
    reveal_strlit("Plain(");
    reveal_strlit("Aliased { from: ");
    match (a, b) {
        (ImportSourceModel::Plain(x), ImportSourceModel::Plain(y)) => {
            lemma_three("Plain("@, q(x), q(y), ")"@);
        },
        (ImportSourceModel::Aliased(x, s), ImportSourceModel::Aliased(y, t)) => {
            lemma_five("Aliased { from: "@, q(x), q(y), ", as_name: "@, q(s), q(t), " }"@);
        },
        _ => {
            assert(shown_import(a, q)[0] != shown_import(b, q)[0]);
            lemma_first(shown_import(a, q), shown_import(b, q));
        },
    }
}

proof fn lemma_imports(a: Seq<ImportSourceModel>, b: Seq<ImportSourceModel>, q: Quotes)
    requires
        tells_apart(q),
    ensures
        apart(shown_imports(a, q), shown_imports(b, q)),
        shown_imports(a, q) == shown_imports(b, q) ==> a == b,
{
    let v = Seq::new(a.len(), |i: int| shown_import(a[i], q));
    let w = Seq::new(b.len(), |i: int| shown_import(b[i], q));
    assert forall|i: int| 0 <= i < v.len() && i < w.len() implies apart(#[trigger] v[i], w[i]) by {
        lemma_import(a[i], b[i], q);
    }
    assert forall|i: int| 0 <= i < v.len() implies is_item(#[trigger] v[i]) by {
        lemma_import(a[i], a[i], q);
    }
    assert forall|i: int| 0 <= i < w.len() implies is_item(#[trigger] w[i]) by {
        lemma_import(b[i], b[i], q);
    }
    lemma_list(v, w);
    if shown_list(v) == shown_list(w) {
        assert forall|i: int| 0 <= i < a.len() implies a[i] == b[i] by {
            assert(v[i] == w[i]);
            lemma_import(a[i], b[i], q);
        }
        assert(a.len() == v.len() && b.len() == w.len());
        assert(a =~= b);
    }
}

proof fn lemma_injection(
    a: Option<(Seq<char>, Option<Seq<char>>)>,
    b: Option<(Seq<char>, Option<Seq<char>>)>,
    q: Quotes,
)
    requires
        tells_apart(q),
    ensures
        apart(shown_injection(a, q), shown_injection(b, q)),
        shown_injection(a, q) == shown_injection(b, q) ==> a == b,
{
    let label = "RuntimeInjection { from: "@;
    let x = match a {
        Some((from, name)) => Some(
            pieces(seq![label, q(from), ", as_name: "@, shown_opt(name, q), " }"@]),
        ),
        None => None,
    };
    let y = match b {
        Some((from, name)) => Some(
            pieces(seq![label, q(from), ", as_name: "@, shown_opt(name, q), " }"@]),
        ),
        None => None,
    };
    if let (Some((f, s)), Some((g, t))) = (a, b) {
        lemma_opt(s, t, q);
        lemma_five(
            label,
            q(f),
            q(g),
            ", as_name: "@,
            shown_opt(s, q),
            shown_opt(t, q),
            " }"@,
        );
    }
    lemma_some(x, y);
}

spec fn naming_pieces(
    x: (ModuleResolutionType, Option<Seq<char>>, Seq<char>),
    q: Quotes,
) -> Seq<Seq<char>> {
    seq![
        "ModuleResolution { kind: "@,
        shown_kind(x.0),
        ", root_dir: "@,
        shown_opt(x.1, q),
        ", theme_file_extension: "@,
        q(x.2),
        " }"@,
    ]
}

proof fn lemma_naming(
    a: Option<(ModuleResolutionType, Option<Seq<char>>, Seq<char>)>,
    b: Option<(ModuleResolutionType, Option<Seq<char>>, Seq<char>)>,
    q: Quotes,
)
    requires
        tells_apart(q),
    ensures
        apart(shown_naming(a, q), shown_naming(b, q)),
        shown_naming(a, q) == shown_naming(b, q) ==> a == b,
{
    let x = match a {
        Some(n) => Some(pieces(naming_pieces(n, q))),
        None => None,
    };
    let y = match b {
        Some(n) => Some(pieces(naming_pieces(n, q))),
        None => None,
    };
    if let (Some(n), Some(m)) = (a, b) {
        let v = naming_pieces(n, q);
        let w = naming_pieces(m, q);
        lemma_module_kind(n.0, m.0);
        lemma_opt(n.1, m.1, q);
        lemma_pieces(v, w, 0);
        if pieces(v) == pieces(w) {
            assert(v[1] == w[1] && v[3] == w[3] && v[5] == w[5]);
        }
    }
    lemma_some(x, y);
}

proof fn lemma_texts(a: Seq<Seq<char>>, b: Seq<Seq<char>>, q: Quotes)
    requires
        tells_apart(q),
    ensures
        apart(shown_list(quoted(a, q)), shown_list(quoted(b, q))),
        shown_list(quoted(a, q)) == shown_list(quoted(b, q)) ==> a == b,
{
    let v = quoted(a, q);
    let w = quoted(b, q);
    lemma_list(v, w);
    if shown_list(v) == shown_list(w) {
        assert(a.len() == v.len() && b.len() == w.len());
        assert forall|i: int| 0 <= i < a.len() implies a[i] == b[i] by {
            assert(v[i] == w[i]);
            assert(q(a[i]) == q(b[i]));
        }
        assert(a =~= b);
    }
}

proof fn lemma_alias(
    a: (Seq<char>, Seq<Seq<char>>),
    b: (Seq<char>, Seq<Seq<char>>),
    q: Quotes,
)
    requires
        tells_apart(q),
    ensures
        apart(shown_alias(a, q), shown_alias(b, q)),
        shown_alias(a, q) == shown_alias(b, q) ==> a == b,
        is_item(shown_alias(a, q)),
{
    lemma_texts(a.1, b.1, q);
    lemma_pair(
        q(a.0),
        shown_list(quoted(a.1, q)),
        q(b.0),
        shown_list(quoted(b.1, q)),
    );
}

proof fn lemma_aliases(
    a: Option<Seq<(Seq<char>, Seq<Seq<char>>)>>,
    b: Option<Seq<(Seq<char>, Seq<Seq<char>>)>>,
    q: Quotes,
)
    requires
        tells_apart(q),
    ensures
        apart(shown_aliases(a, q), shown_aliases(b, q)),
        shown_aliases(a, q) == shown_aliases(b, q) ==> a == b,
{
    let x = match a {
        Some(s) => Some(shown_list(Seq::new(s.len(), |i: int| shown_alias(s[i], q)))),
        None => None,
    };
    let y = match b {
        Some(s) => Some(shown_list(Seq::new(s.len(), |i: int| shown_alias(s[i], q)))),
        None => None,
    };
    if let (Some(s), Some(t)) = (a, b) {
        lemma_alias_lists(s, t, q);
    }
    lemma_some(x, y);
}

proof fn lemma_alias_lists(
    s: Seq<(Seq<char>, Seq<Seq<char>>)>,
    t: Seq<(Seq<char>, Seq<Seq<char>>)>,
    q: Quotes,
)
    requires
        tells_apart(q),
    ensures
        ({
            let v = shown_list(Seq::new(s.len(), |i: int| shown_alias(s[i], q)));
            let w = shown_list(Seq::new(t.len(), |i: int| shown_alias(t[i], q)));
            apart(v, w) && (v == w ==> s == t)
        }),
{
    let v = Seq::new(s.len(), |i: int| shown_alias(s[i], q));
    let w = Seq::new(t.len(), |i: int| shown_alias(t[i], q));
    assert forall|i: int| 0 <= i < v.len() && i < w.len() implies apart(#[trigger] v[i], w[i]) by {
        lemma_alias(s[i], t[i], q);
    }
    assert forall|i: int| 0 <= i < v.len() implies is_item(#[trigger] v[i]) by {
        lemma_alias(s[i], s[i], q);
    }
    assert forall|i: int| 0 <= i < w.len() implies is_item(#[trigger] w[i]) by {
        lemma_alias(t[i], t[i], q);
    }
    lemma_list(v, w);
    if shown_list(v) == shown_list(w) {
        assert(s.len() == v.len() && t.len() == w.len());
        assert forall|i: int| 0 <= i < s.len() implies s[i] == t[i] by {
            assert(v[i] == w[i]);
            lemma_alias(s[i], t[i], q);
        }
        assert(s =~= t);
    }
}

proof fn lemma_development_pieces(a: ResolvedOptions, b: ResolvedOptions, q: Quotes)
    requires
        tells_apart(q),
    ensures
        apart(pieces(development_pieces(a, q)), pieces(development_pieces(b, q))),
        pieces(development_pieces(a, q)) == pieces(development_pieces(b, q)) ==> {
            &&& a.class_name_prefix@ == b.class_name_prefix@
            &&& a.dev == b.dev
            &&& a.debug == b.debug
            &&& a.test == b.test
            &&& a.enable_debug_class_names == b.enable_debug_class_names
            &&& a.enable_debug_data_prop == b.enable_debug_data_prop
            &&& a.enable_dev_class_names == b.enable_dev_class_names
        },
{
    lemma_bool(a.dev, b.dev);
    lemma_bool(a.debug, b.debug);
    lemma_bool(a.test, b.test);
    lemma_bool(a.enable_debug_class_names, b.enable_debug_class_names);
    lemma_bool(a.enable_debug_data_prop, b.enable_debug_data_prop);
    lemma_bool(a.enable_dev_class_names, b.enable_dev_class_names);
    let v = development_pieces(a, q);
    let w = development_pieces(b, q);
    lemma_pieces(v, w, 0);
    if pieces(v) == pieces(w) {
        assert(v[1] == w[1]);
        assert(v[3] == w[3]);
        assert(v[5] == w[5]);
        assert(v[7] == w[7]);
        assert(v[9] == w[9]);
        assert(v[11] == w[11]);
        assert(v[13] == w[13]);
    }
}

proof fn lemma_value_pieces(a: ResolvedOptions, b: ResolvedOptions, q: Quotes)
    requires
        tells_apart(q),
    ensures
        apart(pieces(value_pieces(a, q)), pieces(value_pieces(b, q))),
        pieces(value_pieces(a, q)) == pieces(value_pieces(b, q)) ==> {
            &&& a.enable_font_size_px_to_rem == b.enable_font_size_px_to_rem
            &&& a.enable_inlined_conditional_merge == b.enable_inlined_conditional_merge
            &&& a.enable_media_query_order == b.enable_media_query_order
            &&& a.enable_minified_keys == b.enable_minified_keys
            &&& a.enable_legacy_value_flipping == b.enable_legacy_value_flipping
            &&& a.enable_logical_styles_polyfill == b.enable_logical_styles_polyfill
            &&& a.enable_ltr_rtl_comments == b.enable_ltr_rtl_comments
        },
{
    lemma_bool(a.enable_font_size_px_to_rem, b.enable_font_size_px_to_rem);
    lemma_bool(a.enable_inlined_conditional_merge, b.enable_inlined_conditional_merge);
    lemma_bool(a.enable_media_query_order, b.enable_media_query_order);
    lemma_bool(a.enable_minified_keys, b.enable_minified_keys);
    lemma_bool(a.enable_legacy_value_flipping, b.enable_legacy_value_flipping);
    lemma_bool(a.enable_logical_styles_polyfill, b.enable_logical_styles_polyfill);
    lemma_bool(a.enable_ltr_rtl_comments, b.enable_ltr_rtl_comments);
    let v = value_pieces(a, q);
    let w = value_pieces(b, q);
    lemma_pieces(v, w, 0);
    if pieces(v) == pieces(w) {
        assert(v[1] == w[1]);
        assert(v[3] == w[3]);
        assert(v[5] == w[5]);
        assert(v[7] == w[7]);
        assert(v[9] == w[9]);
        assert(v[11] == w[11]);
        assert(v[13] == w[13]);
    }
}

proof fn lemma_source_pieces(a: ResolvedOptions, b: ResolvedOptions, q: Quotes)
    requires
        tells_apart(q),
    ensures
        apart(pieces(source_pieces(a, q)), pieces(source_pieces(b, q))),
        pieces(source_pieces(a, q)) == pieces(source_pieces(b, q)) ==> {
            &&& opt_text(a.sx_prop_name) == opt_text(b.sx_prop_name)
            &&& a.env.model() == b.env.model()
            &&& import_models(a.import_sources@) == import_models(b.import_sources@)
            &&& injection_model(a.runtime_injection) == injection_model(b.runtime_injection)
        },
{
    lemma_opt(opt_text(a.sx_prop_name), opt_text(b.sx_prop_name), q);
    lemma_stored(a.env);
    lemma_stored(b.env);
    lemma_value(a.env.model(), b.env.model(), q);
    lemma_imports(import_models(a.import_sources@), import_models(b.import_sources@), q);
    lemma_injection(injection_model(a.runtime_injection), injection_model(b.runtime_injection), q);
    let v = source_pieces(a, q);
    let w = source_pieces(b, q);
    lemma_pieces(v, w, 0);
    if pieces(v) == pieces(w) {
        assert(v[1] == w[1]);
        assert(v[3] == w[3]);
        assert(v[5] == w[5]);
        assert(v[7] == w[7]);
    }
}

proof fn lemma_mode_pieces(a: ResolvedOptions, b: ResolvedOptions, q: Quotes)
    requires
        tells_apart(q),
    ensures
        apart(pieces(mode_pieces(a, q)), pieces(mode_pieces(b, q))),
        pieces(mode_pieces(a, q)) == pieces(mode_pieces(b, q)) ==> {
            &&& a.style_resolution == b.style_resolution
            &&& a.property_validation_mode == b.property_validation_mode
            &&& a.treeshake_compensation == b.treeshake_compensation
            &&& resolution_model(a.unstable_module_resolution) == resolution_model(b.unstable_module_resolution)
            &&& opt_aliases(a.aliases) == opt_aliases(b.aliases)
            &&& a.rewrite_aliases == b.rewrite_aliases
        },
{
    lemma_resolution(a.style_resolution, b.style_resolution);
    lemma_validation(a.property_validation_mode, b.property_validation_mode);
    lemma_bool(a.treeshake_compensation, b.treeshake_compensation);
    lemma_naming(resolution_model(a.unstable_module_resolution), resolution_model(b.unstable_module_resolution), q);
    lemma_aliases(opt_aliases(a.aliases), opt_aliases(b.aliases), q);
    lemma_bool(a.rewrite_aliases, b.rewrite_aliases);
    let v = mode_pieces(a, q);
    let w = mode_pieces(b, q);
    lemma_pieces(v, w, 0);
    if pieces(v) == pieces(w) {
        assert(v[1] == w[1]);
        assert(v[3] == w[3]);
        assert(v[5] == w[5]);
        assert(v[7] == w[7]);
        assert(v[9] == w[9]);
        assert(v[11] == w[11]);
    }
}

/// Where quotes tell texts apart, checked options have the same text only where they hold
/// the same.
pub proof fn texts_tell_options_apart(a: ResolvedOptions, b: ResolvedOptions, q: Quotes)
    requires
        tells_apart(q),
    ensures
        (shown_options(a, q) == shown_options(b, q)) == same_options(a, b),
{
    if shown_options(a, q) == shown_options(b, q) {
        lemma_text_tells(a, b, q);
    }
    if same_options(a, b) {
        lemma_text_follows(a, b, q);
    }
}

proof fn lemma_text_tells(a: ResolvedOptions, b: ResolvedOptions, q: Quotes)
    requires
        tells_apart(q),
        shown_options(a, q) == shown_options(b, q),
    ensures
        same_options(a, b),
{
    lemma_same_groups(a, b, q);
    lemma_development_pieces(a, b, q);
    lemma_value_pieces(a, b, q);
    lemma_source_pieces(a, b, q);
    lemma_mode_pieces(a, b, q);
}

proof fn lemma_same_groups(a: ResolvedOptions, b: ResolvedOptions, q: Quotes)
    requires
        tells_apart(q),
        shown_options(a, q) == shown_options(b, q),
    ensures
        pieces(development_pieces(a, q)) == pieces(development_pieces(b, q)),
        pieces(value_pieces(a, q)) == pieces(value_pieces(b, q)),
        pieces(source_pieces(a, q)) == pieces(source_pieces(b, q)),
        pieces(mode_pieces(a, q)) == pieces(mode_pieces(b, q)),
{
    lemma_development_pieces(a, b, q);
    lemma_value_pieces(a, b, q);
    lemma_source_pieces(a, b, q);
    lemma_mode_pieces(a, b, q);
    let v = seq![
        pieces(development_pieces(a, q)),
        pieces(value_pieces(a, q)),
        pieces(source_pieces(a, q)),
        pieces(mode_pieces(a, q)),
        ", cache_repr: "@,
        q(Seq::empty()),
        " }"@,
    ];
    let w = seq![
        pieces(development_pieces(b, q)),
        pieces(value_pieces(b, q)),
        pieces(source_pieces(b, q)),
        pieces(mode_pieces(b, q)),
        ", cache_repr: "@,
        q(Seq::empty()),
        " }"@,
    ];
    lemma_pieces(v, w, 0);
    assert(v[0] == w[0] && v[1] == w[1] && v[2] == w[2] && v[3] == w[3]);
}

} // verus!
