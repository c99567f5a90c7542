//! Values of the style language: ECMAScript values that are known at compile time.

use crate::number::{all_digits, digits_value, JsNumber};
use crate::text::{chars_of, is_digit, str_eq};
use vstd::prelude::*;

verus! {

/// A value as the style calls see it.
#[derive(Debug, PartialEq)]
pub enum EvalValue {
    Undefined,
    Null,
    Bool(bool),
    Num(JsNumber),
    Str(String),
    Arr(Vec<EvalValue>),
    Obj(JsObjectMap),
}

/// An object whose keys are in the order of ECMAScript: array indices ascending,
/// then the other keys as they came. `css` is the syntax of a CSS type, if the
/// object is one.
#[derive(Debug, PartialEq)]
pub struct JsObjectMap {
    pub items: Vec<(String, EvalValue)>,
    pub css: Option<String>,
}

/// A value as the evaluator sees it.
#[derive(Debug, PartialEq)]
pub enum JsValue {
    Undefined,
    Null,
    Bool(bool),
    Num(JsNumber),
    Str(String),
    Arr(Vec<JsValue>),
    Obj(JsObj),
    Proxy(VarGroupProxy),
    Callable(Callable),
}

/// An object of the evaluator, whose keys are in the order in which they came.
#[derive(Debug, PartialEq)]
pub struct JsObj {
    pub items: Vec<(String, JsValue)>,
    pub css: Option<String>,
}

/// A function that has not been called.
#[derive(Debug, PartialEq)]
pub enum Callable {
    Arrow(u32),
    Stylex(StylexCallable),
    Opaque,
}

/// A function of the style language that has not been called.
#[derive(Debug, PartialEq)]
pub enum StylexCallable {
    Types(String),
    Keyframes,
    PositionTry,
    ViewTransitionClass,
    FirstThatWorks,
    When,
    DefaultMarker,
}

/// The variables of a group that another file defines.
#[derive(Debug, PartialEq, Eq)]
pub struct VarGroupProxy {
    pub file_name: String,
    pub export_name: String,
    pub class_name_prefix: String,
    pub debug_names: bool,
    pub var_group_hash: String,
}

/// What a value is, mathematically.
#[verifier::ext_equal]
pub enum Val {
    Undefined,
    Null,
    Bool(bool),
    Num(JsNumber),
    Str(Seq<char>),
    Arr(Seq<Val>),
    Obj(ObjModel),
    Proxy(ProxyModel),
    Callable(CallableModel),
}

/// What an object is, mathematically.
#[verifier::ext_equal]
pub struct ObjModel {
    pub entries: Seq<(Seq<char>, Val)>,
    pub css: Option<Seq<char>>,
}

/// What a function that has not been called is, mathematically.
#[verifier::ext_equal]
pub enum CallableModel {
    Arrow(u32),
    Types(Seq<char>),
    Stylex(StylexFunction),
    Opaque,
}

/// The functions of the style language, but for those that make CSS types.
pub enum StylexFunction {
    Keyframes,
    PositionTry,
    ViewTransitionClass,
    FirstThatWorks,
    When,
    DefaultMarker,
}

/// What a group of variables is, mathematically.
#[verifier::ext_equal]
pub struct ProxyModel {
    pub file_name: Seq<char>,
    pub export_name: Seq<char>,
    pub class_name_prefix: Seq<char>,
    pub debug_names: bool,
    pub var_group_hash: Seq<char>,
}

/// The view of an optional string.
pub open spec fn opt_text(o: Option<String>) -> Option<Seq<char>> {
    match o {
        Some(s) => Some(s@),
        None => None,
    }
}

impl EvalValue {
    /// What the value is, mathematically.
    pub open spec fn model(self) -> Val
        decreases self,
    {
        match self {
            EvalValue::Undefined => Val::Undefined,
            EvalValue::Null => Val::Null,
            EvalValue::Bool(b) => Val::Bool(b),
            EvalValue::Num(n) => Val::Num(n),
            EvalValue::Str(s) => Val::Str(s@),
            EvalValue::Arr(v) => Val::Arr(
                Seq::new(
                    v@.len(),
                    |i: int|
                        if 0 <= i < v@.len() {
                            v@[i].model()
                        } else {
                            arbitrary()
                        },
                ),
            ),
            EvalValue::Obj(m) => Val::Obj(m.model()),
        }
    }
}

impl JsObjectMap {
    /// What the object is, mathematically.
    pub open spec fn model(self) -> ObjModel
        decreases self,
    {
        ObjModel {
            entries: Seq::new(
                self.items@.len(),
                |i: int|
                    if 0 <= i < self.items@.len() {
                        (self.items@[i].0@, self.items@[i].1.model())
                    } else {
                        arbitrary()
                    },
            ),
            css: opt_text(self.css),
        }
    }

    /// The keys with their values.
    pub open spec fn pairs(self) -> Seq<(Seq<char>, Val)> {
        self.model().entries
    }
}

impl JsValue {
    /// What the value is, mathematically.
    pub open spec fn model(self) -> Val
        decreases self,
    {
        match self {
            JsValue::Undefined => Val::Undefined,
            JsValue::Null => Val::Null,
            JsValue::Bool(b) => Val::Bool(b),
            JsValue::Num(n) => Val::Num(n),
            JsValue::Str(s) => Val::Str(s@),
            JsValue::Arr(v) => Val::Arr(
                Seq::new(
                    v@.len(),
                    |i: int|
                        if 0 <= i < v@.len() {
                            v@[i].model()
                        } else {
                            arbitrary()
                        },
                ),
            ),
            JsValue::Obj(m) => Val::Obj(m.model()),
            JsValue::Proxy(p) => Val::Proxy(p.model()),
            JsValue::Callable(c) => Val::Callable(c.model()),
        }
    }
}

impl JsObj {
    /// What the object is, mathematically.
    pub open spec fn model(self) -> ObjModel
        decreases self,
    {
        ObjModel {
            entries: Seq::new(
                self.items@.len(),
                |i: int|
                    if 0 <= i < self.items@.len() {
                        (self.items@[i].0@, self.items@[i].1.model())
                    } else {
                        arbitrary()
                    },
            ),
            css: opt_text(self.css),
        }
    }

    /// The keys with their values.
    pub open spec fn pairs(self) -> Seq<(Seq<char>, Val)> {
        self.model().entries
    }
}

impl Callable {
    /// What the function is, mathematically.
    pub open spec fn model(self) -> CallableModel {
        match self {
            Callable::Arrow(k) => CallableModel::Arrow(k),
            Callable::Stylex(StylexCallable::Types(kind)) => CallableModel::Types(kind@),
            Callable::Stylex(StylexCallable::Keyframes) => CallableModel::Stylex(
                StylexFunction::Keyframes,
            ),
            Callable::Stylex(StylexCallable::PositionTry) => CallableModel::Stylex(
                StylexFunction::PositionTry,
            ),
            Callable::Stylex(StylexCallable::ViewTransitionClass) => CallableModel::Stylex(
                StylexFunction::ViewTransitionClass,
            ),
            Callable::Stylex(StylexCallable::FirstThatWorks) => CallableModel::Stylex(
                StylexFunction::FirstThatWorks,
            ),
            Callable::Stylex(StylexCallable::When) => CallableModel::Stylex(
                StylexFunction::When,
            ),
            Callable::Stylex(StylexCallable::DefaultMarker) => CallableModel::Stylex(
                StylexFunction::DefaultMarker,
            ),
            Callable::Opaque => CallableModel::Opaque,
        }
    }
}

impl VarGroupProxy {
    /// What the group is, mathematically.
    pub open spec fn model(self) -> ProxyModel {
        ProxyModel {
            file_name: self.file_name@,
            export_name: self.export_name@,
            class_name_prefix: self.class_name_prefix@,
            debug_names: self.debug_names,
            var_group_hash: self.var_group_hash@,
        }
    }
}

/// The array index that a key spells in its canonical form, if it spells one.
pub open spec fn array_index_of(k: Seq<char>) -> Option<int> {
    if k.len() > 0 && all_digits(k) && (k.len() == 1 || k[0] != '0') && digits_value(k)
        < 0xffff_ffff {
        Some(digits_value(k) as int)
    } else {
        None
    }
}

/// The keys of a sequence of entries.
pub open spec fn keys_of<T>(e: Seq<(Seq<char>, T)>) -> Seq<Seq<char>> {
    Seq::new(e.len(), |i: int| e[i].0)
}

/// The first position at or after `from` that holds `k`, or the length.
pub open spec fn find_key(keys: Seq<Seq<char>>, k: Seq<char>, from: int) -> int
    decreases keys.len() - from,
{
    if from >= keys.len() || from < 0 {
        keys.len() as int
    } else if keys[from] == k {
        from
    } else {
        find_key(keys, k, from + 1)
    }
}

/// The first position at or after `from` whose key is no array index below `n`.
pub open spec fn index_slot(keys: Seq<Seq<char>>, n: int, from: int) -> int
    decreases keys.len() - from,
{
    if from >= keys.len() || from < 0 {
        keys.len() as int
    } else {
        match array_index_of(keys[from]) {
            Some(m) => if m < n {
                index_slot(keys, n, from + 1)
            } else {
                from
            },
            None => from,
        }
    }
}

/// Where a new key goes: an array index behind the smaller ones, any other key at
/// the end.
pub open spec fn slot_of(keys: Seq<Seq<char>>, k: Seq<char>) -> int {
    match array_index_of(k) {
        Some(n) => index_slot(keys, n, 0),
        None => keys.len() as int,
    }
}

/// The entries after `k` was set to `v`: a key that is there keeps its place.
pub open spec fn put<T>(e: Seq<(Seq<char>, T)>, k: Seq<char>, v: T) -> Seq<(Seq<char>, T)> {
    let i = find_key(keys_of(e), k, 0);
    if i < e.len() {
        e.update(i, (e[i].0, v))
    } else {
        e.insert(slot_of(keys_of(e), k), (k, v))
    }
}

/// The entries after `k` was set to `v`, where a new key goes to the end.
pub open spec fn append_put<T>(e: Seq<(Seq<char>, T)>, k: Seq<char>, v: T) -> Seq<(Seq<char>, T)> {
    let i = find_key(keys_of(e), k, 0);
    if i < e.len() {
        e.update(i, (e[i].0, v))
    } else {
        e.push((k, v))
    }
}

/// The object that the first `k` entries make when they are set in order.
pub open spec fn as_object_upto<T>(e: Seq<(Seq<char>, T)>, k: int) -> Seq<(Seq<char>, T)>
    decreases k,
{
    if k <= 0 {
        Seq::empty()
    } else {
        put(as_object_upto(e, k - 1), e[k - 1].0, e[k - 1].1)
    }
}

/// The object that entries make when they are set in order.
pub open spec fn as_object<T>(e: Seq<(Seq<char>, T)>) -> Seq<(Seq<char>, T)> {
    as_object_upto(e, e.len() as int)
}

/// The entries without `k`.
pub open spec fn removed<T>(e: Seq<(Seq<char>, T)>, k: Seq<char>) -> Seq<(Seq<char>, T)> {
    let i = find_key(keys_of(e), k, 0);
    if i < e.len() {
        e.remove(i)
    } else {
        e
    }
}

/// The value of `k`, if it is there.
pub open spec fn value_of<T>(e: Seq<(Seq<char>, T)>, k: Seq<char>) -> Option<T> {
    let i = find_key(keys_of(e), k, 0);
    if i < e.len() {
        Some(e[i].1)
    } else {
        None
    }
}

/// Whether the keys are in the order of ECMAScript, each once.
pub open spec fn es_ordered(keys: Seq<Seq<char>>) -> bool {
    forall|i: int, j: int|
        0 <= i < j < keys.len() ==> {
            &&& #[trigger] keys[i] != #[trigger] keys[j]
            &&& array_index_of(keys[j]) is Some ==> array_index_of(keys[i]) is Some
                && array_index_of(keys[i])->0 < array_index_of(keys[j])->0
        }
}

pub proof fn lemma_find_key(keys: Seq<Seq<char>>, k: Seq<char>, from: int)
    requires
        0 <= from <= keys.len(),
    ensures
        from <= find_key(keys, k, from) <= keys.len(),
        find_key(keys, k, from) < keys.len() ==> keys[find_key(keys, k, from)] == k,
        forall|i: int| from <= i < find_key(keys, k, from) ==> #[trigger] keys[i] != k,
    decreases keys.len() - from,
{
    if from < keys.len() && keys[from] != k {
        lemma_find_key(keys, k, from + 1);
    }
}

proof fn lemma_index_slot(keys: Seq<Seq<char>>, n: int, from: int)
    requires
        0 <= from <= keys.len(),
    ensures
        ({
            let s = index_slot(keys, n, from);
            &&& from <= s <= keys.len()
            &&& forall|i: int|
                from <= i < s ==> array_index_of(#[trigger] keys[i]) is Some && array_index_of(
                    keys[i],
                )->0 < n
            &&& s < keys.len() ==> !(array_index_of(keys[s]) is Some && array_index_of(keys[s])->0
                < n)
        }),
    decreases keys.len() - from,
{
    if from < keys.len() {
        if let Some(m) = array_index_of(keys[from]) {
            if m < n {
                lemma_index_slot(keys, n, from + 1);
            }
        }
    }
}

/// A new key has a place among the others.
pub proof fn lemma_slot(keys: Seq<Seq<char>>, k: Seq<char>)
    ensures
        0 <= slot_of(keys, k) <= keys.len(),
{
    if let Some(n) = array_index_of(k) {
        lemma_index_slot(keys, n, 0);
    }
}

/// A key can be read after it was set, and holds what it was set to.
pub proof fn put_then_read<T>(e: Seq<(Seq<char>, T)>, k: Seq<char>, v: T)
    ensures
        value_of(put(e, k, v), k) == Some(v),
{
    let keys = keys_of(e);
    lemma_find_key(keys, k, 0);
    let i = find_key(keys, k, 0);
    let after = put(e, k, v);
    if i < e.len() {
        assert(keys_of(after) =~= keys);
    } else {
        if let Some(n) = array_index_of(k) {
            lemma_index_slot(keys, n, 0);
        }
        let s = slot_of(keys, k);
        assert(keys_of(after) =~= keys.insert(s, k));
        lemma_find_key(keys_of(after), k, 0);
        let j = find_key(keys_of(after), k, 0);
        assert(keys_of(after)[s] == k);
        assert(j == s) by {
            if j < s {
                assert(keys[j] == k);
            }
        }
    }
}

/// Setting a key leaves every other key as it was.
pub proof fn put_keeps_others<T>(e: Seq<(Seq<char>, T)>, k: Seq<char>, v: T, other: Seq<char>)
    requires
        other != k,
    ensures
        value_of(put(e, k, v), other) == value_of(e, other),
{
    let keys = keys_of(e);
    let after = put(e, k, v);
    lemma_find_key(keys, k, 0);
    lemma_find_key(keys, other, 0);
    lemma_find_key(keys_of(after), other, 0);
    let i = find_key(keys, k, 0);
    let a = find_key(keys, other, 0);
    let b = find_key(keys_of(after), other, 0);
    if i < e.len() {
        assert(keys_of(after) =~= keys);
    } else {
        if let Some(n) = array_index_of(k) {
            lemma_index_slot(keys, n, 0);
        }
        let s = slot_of(keys, k);
        let ks = keys_of(after);
        assert(ks =~= keys.insert(s, k));
        let moved = if a < s {
            a
        } else {
            a + 1
        };
        if a < keys.len() {
            assert(ks[moved] == other);
            if b < moved {
                if b < s {
                    assert(keys[b] == other);
                } else if b > s {
                    assert(keys[b - 1] == other);
                }
            }
            assert(b == moved);
        } else if b < ks.len() {
            if b < s {
                assert(keys[b] == other);
            } else if b > s {
                assert(keys[b - 1] == other);
            }
        }
    }
}

/// Setting a key keeps the keys in the order of ECMAScript.
pub proof fn put_keeps_order<T>(e: Seq<(Seq<char>, T)>, k: Seq<char>, v: T)
    requires
        es_ordered(keys_of(e)),
    ensures
        es_ordered(keys_of(put(e, k, v))),
{
    let keys = keys_of(e);
    let after = put(e, k, v);
    lemma_find_key(keys, k, 0);
    let f = find_key(keys, k, 0);
    if f < e.len() {
        assert(keys_of(after) =~= keys);
    } else {
        if let Some(n) = array_index_of(k) {
            lemma_index_slot(keys, n, 0);
        }
        let s = slot_of(keys, k);
        let ks = keys_of(after);
        assert(ks =~= keys.insert(s, k));
        assert forall|i: int, j: int| 0 <= i < j < ks.len() implies {
            &&& #[trigger] ks[i] != #[trigger] ks[j]
            &&& array_index_of(ks[j]) is Some ==> array_index_of(ks[i]) is Some && array_index_of(
                ks[i],
            )->0 < array_index_of(ks[j])->0
        } by {
            let i0 = if i < s {
                i
            } else {
                i - 1
            };
            let j0 = if j < s {
                j
            } else {
                j - 1
            };
            if i != s && j != s {
                assert(keys[i0] != keys[j0]);
            } else if i == s {
                assert(keys[j0] != k);
                if let Some(n) = array_index_of(k) {
                    if array_index_of(keys[j0]) is Some {
                        if j0 > s {
                            assert(keys[s] != keys[j0]);
                        }
                        if array_index_of(keys[j0]) == array_index_of(k) {
                            lemma_index_injective(k, keys[j0]);
                        }
                    }
                } else {
                    assert(s == keys.len());
                }
            } else {
                assert(keys[i0] != k);
                if array_index_of(k) is Some {
                    assert(array_index_of(keys[i0]) is Some);
                }
            }
        }
    }
}

proof fn lemma_digits_injective(a: Seq<char>, b: Seq<char>)
    requires
        all_digits(a),
        all_digits(b),
        a.len() == b.len(),
        digits_value(a) == digits_value(b),
    ensures
        a == b,
    decreases a.len(),
{
    if a.len() > 0 {
        let n = a.len() - 1;
        assert(crate::text::digit(a[n]) && crate::text::digit(b[n]));
        assert(all_digits(a.drop_last())) by {
            assert forall|i: int| 0 <= i < n implies crate::text::digit(#[trigger] a.drop_last()[i]) by {
                assert(crate::text::digit(a[i]));
            }
        }
        assert(all_digits(b.drop_last())) by {
            assert forall|i: int| 0 <= i < n implies crate::text::digit(#[trigger] b.drop_last()[i]) by {
                assert(crate::text::digit(b[i]));
            }
        }
        lemma_digits_injective(a.drop_last(), b.drop_last());
        assert(a =~= a.drop_last().push(a.last()));
        assert(b =~= b.drop_last().push(b.last()));
    } else {
        assert(a =~= b);
    }
}

proof fn lemma_digits_lead(a: Seq<char>, n: nat)
    requires
        all_digits(a),
        a.len() == n + 1,
        a[0] != '0',
    ensures
        digits_value(a) >= crate::bignat::pow10(n),
        digits_value(a) < crate::bignat::pow10(n + 1),
    decreases n,
{
    let last = a.len() - 1;
    assert(crate::text::digit(a[0]));
    assert(crate::text::digit(a[last]));
    if n > 0 {
        let b = a.drop_last();
        assert(all_digits(b)) by {
            assert forall|i: int| 0 <= i < b.len() implies crate::text::digit(#[trigger] b[i]) by {
                assert(crate::text::digit(a[i]));
            }
        }
        lemma_digits_lead(b, (n - 1) as nat);
    } else {
        assert(a.drop_last() =~= Seq::<char>::empty());
        reveal_with_fuel(digits_value, 2);
        reveal_with_fuel(crate::bignat::pow10, 2);
    }
}

proof fn lemma_pow10_order(a: nat, b: nat)
    requires
        a <= b,
    ensures
        crate::bignat::pow10(a) <= crate::bignat::pow10(b),
    decreases b - a,
{
    if a < b {
        lemma_pow10_order(a, (b - 1) as nat);
    }
}

/// Two keys that spell the same array index are the same key.
pub proof fn lemma_index_injective(a: Seq<char>, b: Seq<char>)
    requires
        array_index_of(a) is Some,
        array_index_of(a) == array_index_of(b),
    ensures
        a == b,
{
    if a.len() != b.len() {
        lemma_longer_index(a, b);
        lemma_longer_index(b, a);
    }
    lemma_digits_injective(a, b);
}

proof fn lemma_longer_index(a: Seq<char>, b: Seq<char>)
    requires
        array_index_of(a) is Some,
        array_index_of(b) is Some,
    ensures
        a.len() < b.len() ==> digits_value(a) < digits_value(b),
{
    if a.len() < b.len() {
        lemma_digits_lead(b, (b.len() - 1) as nat);
        lemma_digits_upper(a);
        lemma_pow10_order(a.len(), (b.len() - 1) as nat);
    }
}

proof fn lemma_digits_upper(s: Seq<char>)
    requires
        all_digits(s),
    ensures
        digits_value(s) < crate::bignat::pow10(s.len()),
    decreases s.len(),
{
    if s.len() > 0 {
        assert(crate::text::digit(s[s.len() - 1]));
        assert(all_digits(s.drop_last())) by {
            assert forall|i: int| 0 <= i < s.drop_last().len() implies crate::text::digit(
                #[trigger] s.drop_last()[i],
            ) by {
                assert(crate::text::digit(s[i]));
            }
        }
        lemma_digits_upper(s.drop_last());
    }
}

/// The array index that a key spells in its canonical form, if it spells one.
pub fn array_index(key: &str) -> (r: Option<u32>)
    ensures
        r is Some == array_index_of(key@) is Some,
        r is Some ==> r->0 == array_index_of(key@)->0,
{
    let s = chars_of(key);
    if s.len() == 0 || (s.len() > 1 && s[0] == '0') {
        return None;
    }
    let mut n: u64 = 0;
    let mut big = false;
    let mut i: usize = 0;
    while i < s.len()
        invariant
            s@ == key@,
            i <= s@.len(),
            forall|j: int| 0 <= j < i ==> crate::text::digit(#[trigger] s@[j]),
            !big ==> n == digits_value(s@.take(i as int)) && n < 0xffff_ffff,
            big ==> digits_value(s@.take(i as int)) >= 0xffff_ffff,
        decreases s@.len() - i,
    {
        if !is_digit(s[i]) {
            proof {
                assert(!all_digits(s@)) by {
                    assert(!crate::text::digit(s@[i as int]));
                }
            }
            return None;
        }
        proof {
            assert(s@.take(i as int + 1).drop_last() =~= s@.take(i as int));
        }
        if !big {
            n = n * 10 + (s[i] as u64 - 48);
            if n >= 0xffff_ffff {
                big = true;
                n = 0;
            }
        }
        i += 1;
    }
    proof {
        assert(s@.take(s@.len() as int) =~= s@);
    }
    if big {
        None
    } else {
        Some(n as u32)
    }
}

/// The keys of a sequence of items.
pub open spec fn item_keys<T>(v: Seq<(String, T)>) -> Seq<Seq<char>> {
    Seq::new(v.len(), |i: int| v[i].0@)
}

/// The position of a key, or the number of items.
pub fn position_of<T>(items: &Vec<(String, T)>, key: &str) -> (r: usize)
    ensures
        r == find_key(item_keys(items@), key@, 0),
        r <= items@.len(),
        r < items@.len() ==> items@[r as int].0@ == key@,
{
    let mut i: usize = 0;
    while i < items.len()
        invariant
            i <= items@.len(),
            find_key(item_keys(items@), key@, 0) == find_key(item_keys(items@), key@, i as int),
        decreases items@.len() - i,
    {
        if str_eq(items[i].0.as_str(), key) {
            return i;
        }
        i += 1;
    }
    i
}

/// Where a new key goes.
pub fn slot_for<T>(items: &Vec<(String, T)>, key: &str) -> (r: usize)
    ensures
        r == slot_of(item_keys(items@), key@),
        r <= items@.len(),
{
    match array_index(key) {
        None => items.len(),
        Some(n) => {
            let mut i: usize = 0;
            while i < items.len()
                invariant
                    i <= items@.len(),
                    array_index_of(key@) == Some(n as int),
                    index_slot(item_keys(items@), n as int, 0) == index_slot(
                        item_keys(items@),
                        n as int,
                        i as int,
                    ),
                decreases items@.len() - i,
            {
                match array_index(items[i].0.as_str()) {
                    Some(m) => {
                        if m >= n {
                            return i;
                        }
                    },
                    None => {
                        return i;
                    },
                }
                i += 1;
            }
            i
        },
    }
}

/// Sets a key of entries, as an object would.
pub fn put_item<T>(items: &mut Vec<(String, T)>, key: String, value: T)
    ensures
        ({
            let at = find_key(item_keys(old(items)@), key@, 0);
            let slot = slot_of(item_keys(old(items)@), key@);
            if at < old(items)@.len() {
                0 <= at && final(items)@ == old(items)@.update(at, (old(items)@[at].0, value))
            } else {
                0 <= slot <= old(items)@.len() && final(items)@ == old(items)@.insert(
                    slot,
                    (key, value),
                )
            }
        }),
{
    let ghost before = items@;
    let at: usize = position_of(items, key.as_str());
    if at < items.len() {
        let gone = items.remove(at);
        items.insert(at, (gone.0, value));
        proof {
            assert(items@ =~= before.update(at as int, (before[at as int].0, value)));
        }
    } else {
        let slot: usize = slot_for(items, key.as_str());
        items.insert(slot, (key, value));
    }
}

/// What texts under keys are, mathematically.
pub open spec fn text_pairs(v: Seq<(String, String)>) -> Seq<(Seq<char>, Seq<char>)> {
    Seq::new(v.len(), |i: int| (v[i].0@, v[i].1@))
}

/// Sets a key of texts, as an object would.
pub fn put_text(items: &mut Vec<(String, String)>, key: String, value: String)
    ensures
        text_pairs(final(items)@) == put(text_pairs(old(items)@), key@, value@),
{
    let ghost before = text_pairs(items@);
    proof {
        assert(keys_of(before) =~= item_keys(items@));
    }
    put_item(items, key, value);
    proof {
        assert(text_pairs(items@) =~= put(before, key@, value@));
    }
}

fn copy_opt(o: &Option<String>) -> (r: Option<String>)
    ensures
        opt_text(r) == opt_text(*o),
{
    match o {
        Some(s) => Some(s.clone()),
        None => None,
    }
}

fn copy_value(v: &EvalValue) -> (r: EvalValue)
    ensures
        r.model() == v.model(),
    decreases v,
{
    match v {
        EvalValue::Undefined => EvalValue::Undefined,
        EvalValue::Null => EvalValue::Null,
        EvalValue::Bool(b) => EvalValue::Bool(*b),
        EvalValue::Num(n) => EvalValue::Num(*n),
        EvalValue::Str(s) => EvalValue::Str(s.clone()),
        EvalValue::Arr(items) => {
            let mut out: Vec<EvalValue> = Vec::new();
            let mut i: usize = 0;
            while i < items.len()
                invariant
                    *v == EvalValue::Arr(*items),
                    i <= items@.len(),
                    out@.len() == i,
                    forall|j: int| 0 <= j < i ==> #[trigger] out@[j].model() == items@[j].model(),
                decreases items@.len() - i,
            {
                proof {
                    assert(decreases_to!(*v => v->Arr_0));
                    assert(decreases_to!(*items => items@[i as int]));
                }
                out.push(copy_value(&items[i]));
                i += 1;
            }
            let r = EvalValue::Arr(out);
            proof {
                assert forall|j: int| 0 <= j < items@.len() implies r.model()->Arr_0[j]
                    == v.model()->Arr_0[j] by {
                    assert(out@[j].model() == items@[j].model());
                }
                assert(r.model()->Arr_0 =~= v.model()->Arr_0);
            }
            r
        },
        EvalValue::Obj(m) => EvalValue::Obj(copy_map(m)),
    }
}

fn copy_map(m: &JsObjectMap) -> (r: JsObjectMap)
    ensures
        r.model() == m.model(),
    decreases m,
{
    let mut out: Vec<(String, EvalValue)> = Vec::new();
    let mut i: usize = 0;
    while i < m.items.len()
        invariant
            i <= m.items@.len(),
            out@.len() == i,
            forall|j: int|
                0 <= j < i ==> (#[trigger] out@[j]).1.model() == m.items@[j].1.model() && out@[j].0@
                    == m.items@[j].0@,
        decreases m.items@.len() - i,
    {
        let item = (m.items[i].0.clone(), copy_value(&m.items[i].1));
        out.push(item);
        i += 1;
    }
    let r = JsObjectMap { items: out, css: copy_opt(&m.css) };
    proof {
        assert(r.model().entries =~= m.model().entries);
    }
    r
}

impl Clone for EvalValue {
    fn clone(&self) -> (r: Self)
        ensures
            r.model() == self.model(),
    {
        copy_value(self)
    }
}

impl Clone for JsObjectMap {
    fn clone(&self) -> (r: Self)
        ensures
            r.model() == self.model(),
    {
        copy_map(self)
    }
}

impl Clone for Callable {
    fn clone(&self) -> (r: Self)
        ensures
            r.model() == self.model(),
    {
        match self {
            Callable::Arrow(k) => Callable::Arrow(*k),
            Callable::Opaque => Callable::Opaque,
            Callable::Stylex(s) => Callable::Stylex(
                match s {
                    StylexCallable::Types(kind) => StylexCallable::Types(kind.clone()),
                    StylexCallable::Keyframes => StylexCallable::Keyframes,
                    StylexCallable::PositionTry => StylexCallable::PositionTry,
                    StylexCallable::ViewTransitionClass => StylexCallable::ViewTransitionClass,
                    StylexCallable::FirstThatWorks => StylexCallable::FirstThatWorks,
                    StylexCallable::When => StylexCallable::When,
                    StylexCallable::DefaultMarker => StylexCallable::DefaultMarker,
                },
            ),
        }
    }
}

impl Clone for VarGroupProxy {
    fn clone(&self) -> (r: Self)
        ensures
            r.model() == self.model(),
    {
        VarGroupProxy {
            file_name: self.file_name.clone(),
            export_name: self.export_name.clone(),
            class_name_prefix: self.class_name_prefix.clone(),
            debug_names: self.debug_names,
            var_group_hash: self.var_group_hash.clone(),
        }
    }
}

fn copy_js(v: &JsValue) -> (r: JsValue)
    ensures
        r.model() == v.model(),
    decreases v,
{
    match v {
        JsValue::Undefined => JsValue::Undefined,
        JsValue::Null => JsValue::Null,
        JsValue::Bool(b) => JsValue::Bool(*b),
        JsValue::Num(n) => JsValue::Num(*n),
        JsValue::Str(s) => JsValue::Str(s.clone()),
        JsValue::Arr(items) => {
            let mut out: Vec<JsValue> = Vec::new();
            let mut i: usize = 0;
            while i < items.len()
                invariant
                    *v == JsValue::Arr(*items),
                    i <= items@.len(),
                    out@.len() == i,
                    forall|j: int| 0 <= j < i ==> #[trigger] out@[j].model() == items@[j].model(),
                decreases items@.len() - i,
            {
                proof {
                    assert(decreases_to!(*v => v->Arr_0));
                    assert(decreases_to!(*items => items@[i as int]));
                }
                out.push(copy_js(&items[i]));
                i += 1;
            }
            let r = JsValue::Arr(out);
            proof {
                assert forall|j: int| 0 <= j < items@.len() implies r.model()->Arr_0[j]
                    == v.model()->Arr_0[j] by {
                    assert(out@[j].model() == items@[j].model());
                }
                assert(r.model()->Arr_0 =~= v.model()->Arr_0);
            }
            r
        },
        JsValue::Obj(m) => JsValue::Obj(copy_obj(m)),
        JsValue::Proxy(p) => JsValue::Proxy(p.clone()),
        JsValue::Callable(c) => JsValue::Callable(c.clone()),
    }
}

fn copy_obj(m: &JsObj) -> (r: JsObj)
    ensures
        r.model() == m.model(),
    decreases m,
{
    let mut out: Vec<(String, JsValue)> = Vec::new();
    let mut i: usize = 0;
    while i < m.items.len()
        invariant
            i <= m.items@.len(),
            out@.len() == i,
            forall|j: int|
                0 <= j < i ==> (#[trigger] out@[j]).1.model() == m.items@[j].1.model() && out@[j].0@
                    == m.items@[j].0@,
        decreases m.items@.len() - i,
    {
        let item = (m.items[i].0.clone(), copy_js(&m.items[i].1));
        out.push(item);
        i += 1;
    }
    let r = JsObj { items: out, css: copy_opt(&m.css) };
    proof {
        assert(r.model().entries =~= m.model().entries);
    }
    r
}

impl Clone for JsValue {
    fn clone(&self) -> (r: Self)
        ensures
            r.model() == self.model(),
    {
        copy_js(self)
    }
}

impl Clone for JsObj {
    fn clone(&self) -> (r: Self)
        ensures
            r.model() == self.model(),
    {
        copy_obj(self)
    }
}

impl JsObjectMap {
    /// The object without keys.
    pub fn new() -> (r: JsObjectMap)
        ensures
            r.pairs() == Seq::<(Seq<char>, Val)>::empty(),
            r.model().css is None,
    {
        let r = JsObjectMap { items: Vec::new(), css: None };
        proof {
            assert(r.pairs() =~= Seq::<(Seq<char>, Val)>::empty());
        }
        r
    }

    /// The number of keys.
    pub fn len(&self) -> (r: usize)
        ensures
            r == self.pairs().len(),
    {
        self.items.len()
    }

    /// The keys with their values, in order.
    pub fn entries(&self) -> (r: &Vec<(String, EvalValue)>)
        ensures
            r == self.items,
    {
        &self.items
    }

    /// Sets a key.
    pub fn insert(&mut self, key: String, value: EvalValue)
        ensures
            final(self).pairs() == put(old(self).pairs(), key@, value.model()),
            final(self).model().css == old(self).model().css,
    {
        let ghost before = self.pairs();
        let ghost m = value.model();
        let at: usize = position_of(&self.items, key.as_str());
        proof {
            assert(keys_of(before) =~= item_keys(self.items@));
        }
        if at < self.items.len() {
            let old_item = self.items.remove(at);
            self.items.insert(at, (old_item.0, value));
            proof {
                assert(self.pairs() =~= before.update(at as int, (key@, m)));
            }
        } else {
            let slot: usize = slot_for(&self.items, key.as_str());
            self.items.insert(slot, (key, value));
            proof {
                assert(self.pairs() =~= before.insert(slot as int, (key@, m)));
            }
        }
    }

    /// Sets a key given as a slice.
    pub fn set(&mut self, key: &str, value: EvalValue)
        ensures
            final(self).pairs() == put(old(self).pairs(), key@, value.model()),
            final(self).model().css == old(self).model().css,
    {
        self.insert(key.to_owned(), value);
    }

    /// The value of a key, if it is there.
    pub fn get(&self, key: &str) -> (r: Option<&EvalValue>)
        ensures
            r is Some == value_of(self.pairs(), key@) is Some,
            r is Some ==> r->0.model() == value_of(self.pairs(), key@)->0,
    {
        let at: usize = position_of(&self.items, key);
        proof {
            assert(keys_of(self.pairs()) =~= item_keys(self.items@));
        }
        if at < self.items.len() {
            Some(&self.items[at].1)
        } else {
            None
        }
    }

    /// Takes a key out, with its value.
    pub fn remove(&mut self, key: &str) -> (r: Option<EvalValue>)
        ensures
            r is Some == value_of(old(self).pairs(), key@) is Some,
            r is Some ==> r->0.model() == value_of(old(self).pairs(), key@)->0,
            final(self).pairs() == removed(old(self).pairs(), key@),
            final(self).model().css == old(self).model().css,
    {
        let ghost before = self.pairs();
        let at: usize = position_of(&self.items, key);
        proof {
            assert(keys_of(before) =~= item_keys(self.items@));
            lemma_find_key(keys_of(before), key@, 0);
        }
        if at < self.items.len() {
            let item = self.items.remove(at);
            proof {
                assert(self.pairs() =~= before.remove(at as int));
            }
            Some(item.1)
        } else {
            None
        }
    }

    /// Whether a key is there.
    pub fn contains_key(&self, key: &str) -> (r: bool)
        ensures
            r == value_of(self.pairs(), key@) is Some,
    {
        self.get(key).is_some()
    }

    /// The keys in order.
    pub fn keys(&self) -> (r: Vec<String>)
        ensures
            crate::text::texts(r@) == keys_of(self.pairs()),
    {
        let mut out: Vec<String> = Vec::new();
        let mut i: usize = 0;
        while i < self.items.len()
            invariant
                i <= self.items@.len(),
                out@.len() == i,
                forall|j: int| 0 <= j < i ==> (#[trigger] out@[j])@ == self.items@[j].0@,
            decreases self.items@.len() - i,
        {
            out.push(self.items[i].0.clone());
            i += 1;
        }
        proof {
            assert(crate::text::texts(out@) =~= keys_of(self.pairs()));
        }
        out
    }

    /// Marks the object as a CSS type.
    pub fn set_css_type(&mut self, syntax: String)
        ensures
            final(self).pairs() == old(self).pairs(),
            final(self).model().css == Some(syntax@),
    {
        self.css = Some(syntax);
        proof {
            assert(self.pairs() =~= old(self).pairs());
        }
    }
}

impl JsObj {
    /// The object without keys.
    pub fn new() -> (r: JsObj)
        ensures
            r.pairs() == Seq::<(Seq<char>, Val)>::empty(),
            r.model().css is None,
    {
        let r = JsObj { items: Vec::new(), css: None };
        proof {
            assert(r.pairs() =~= Seq::<(Seq<char>, Val)>::empty());
        }
        r
    }

    /// Sets a key; a new one goes to the end.
    pub fn insert(&mut self, key: String, value: JsValue)
        ensures
            final(self).pairs() == append_put(old(self).pairs(), key@, value.model()),
            final(self).model().css == old(self).model().css,
    {
        let ghost before = self.pairs();
        let ghost m = value.model();
        let at: usize = position_of(&self.items, key.as_str());
        proof {
            assert(keys_of(before) =~= item_keys(self.items@));
        }
        if at < self.items.len() {
            let old_item = self.items.remove(at);
            self.items.insert(at, (old_item.0, value));
            proof {
                assert(self.pairs() =~= before.update(at as int, (key@, m)));
            }
        } else {
            self.items.push((key, value));
            proof {
                assert(self.pairs() =~= before.push((key@, m)));
            }
        }
    }

    /// The value of a key, if it is there.
    pub fn get(&self, key: &str) -> (r: Option<&JsValue>)
        ensures
            r is Some == value_of(self.pairs(), key@) is Some,
            r is Some ==> r->0.model() == value_of(self.pairs(), key@)->0,
    {
        let at: usize = position_of(&self.items, key);
        proof {
            assert(keys_of(self.pairs()) =~= item_keys(self.items@));
        }
        if at < self.items.len() {
            Some(&self.items[at].1)
        } else {
            None
        }
    }
}

impl Default for JsObj {
    fn default() -> (r: Self)
        ensures
            r.pairs() == Seq::<(Seq<char>, Val)>::empty(),
            r.model().css is None,
    {
        JsObj::new()
    }
}

impl Default for JsObjectMap {
    fn default() -> (r: Self)
        ensures
            r.pairs() == Seq::<(Seq<char>, Val)>::empty(),
            r.model().css is None,
    {
        JsObjectMap::new()
    }
}

impl JsValue {
    /// An object as a value.
    pub fn object(obj: JsObj) -> (r: JsValue)
        ensures
            r.model() == Val::Obj(obj.model()),
    {
        JsValue::Obj(obj)
    }

    /// An array as a value.
    pub fn array(items: Vec<JsValue>) -> (r: JsValue)
        ensures
            r == JsValue::Arr(items),
    {
        JsValue::Arr(items)
    }

    /// A group of variables as a value.
    pub fn proxy(group: VarGroupProxy) -> (r: JsValue)
        ensures
            r.model() == Val::Proxy(group.model()),
    {
        JsValue::Proxy(group)
    }
}

/// A value of the evaluator as the style calls see it: functions and groups of
/// variables are undefined, and objects have the order of ECMAScript.
pub open spec fn eval_of(v: Val) -> Val
    decreases v, 0int,
{
    match v {
        Val::Arr(items) => Val::Arr(items_eval_upto(items, items.len() as int)),
        Val::Obj(m) => Val::Obj(
            ObjModel { entries: entries_eval_upto(m.entries, m.entries.len() as int), css: m.css },
        ),
        Val::Proxy(_) | Val::Callable(_) => Val::Undefined,
        _ => v,
    }
}

/// The first `k` items as the style calls see them.
pub open spec fn items_eval_upto(v: Seq<Val>, k: int) -> Seq<Val>
    decreases v, k,
{
    if k <= 0 || k > v.len() {
        Seq::empty()
    } else {
        items_eval_upto(v, k - 1).push(eval_of(v[k - 1]))
    }
}

/// The first `k` entries as the style calls see them.
pub open spec fn entries_eval_upto(e: Seq<(Seq<char>, Val)>, k: int) -> Seq<(Seq<char>, Val)>
    decreases e, k,
{
    if k <= 0 || k > e.len() {
        Seq::empty()
    } else {
        put(entries_eval_upto(e, k - 1), e[k - 1].0, eval_of(e[k - 1].1))
    }
}

/// Gives a value of the evaluator as the style calls see it.
pub fn to_eval_value(value: &JsValue) -> (r: EvalValue)
    ensures
        r.model() == eval_of(value.model()),
    decreases value,
{
    match value {
        JsValue::Undefined => EvalValue::Undefined,
        JsValue::Null => EvalValue::Null,
        JsValue::Bool(b) => EvalValue::Bool(*b),
        JsValue::Num(n) => EvalValue::Num(*n),
        JsValue::Str(s) => EvalValue::Str(s.clone()),
        JsValue::Arr(items) => {
            let ghost all = value.model()->Arr_0;
            let mut out: Vec<EvalValue> = Vec::new();
            let ghost mut done = Seq::<Val>::empty();
            let mut i: usize = 0;
            while i < items.len()
                invariant
                    *value == JsValue::Arr(*items),
                    all == value.model()->Arr_0,
                    i <= items@.len(),
                    out@.len() == i,
                    done == items_eval_upto(all, i as int),
                    done.len() == i,
                    forall|j: int| 0 <= j < i ==> (#[trigger] out@[j]).model() == done[j],
                decreases items@.len() - i,
            {
                proof {
                    assert(decreases_to!(*value => value->Arr_0));
                    assert(decreases_to!(*items => items@[i as int]));
                    assert(all[i as int] == items@[i as int].model());
                }
                let ghost before = done;
                out.push(to_eval_value(&items[i]));
                proof {
                    done = done.push(eval_of(all[i as int]));
                    assert forall|j: int| 0 <= j < i + 1 implies (#[trigger] out@[j]).model()
                        == done[j] by {
                        if j < i {
                            assert(done[j] == before[j]);
                        }
                    }
                }
                i += 1;
            }
            let r = EvalValue::Arr(out);
            proof {
                assert(r.model()->Arr_0 =~= done);
            }
            r
        },
        JsValue::Obj(obj) => {
            let ghost e = obj.pairs();
            let mut out = JsObjectMap::new();
            let mut i: usize = 0;
            while i < obj.items.len()
                invariant
                    *value == JsValue::Obj(*obj),
                    e == obj.pairs(),
                    i <= obj.items@.len(),
                    out.model().css is None,
                    out.pairs() == entries_eval_upto(e, i as int),
                decreases obj.items@.len() - i,
            {
                proof {
                    assert(decreases_to!(*value => value->Obj_0));
                    assert(decreases_to!(*obj => obj.items));
                    assert(decreases_to!(obj.items => obj.items@[i as int]));
                    assert(e[i as int] == (
                        obj.items@[i as int].0@,
                        obj.items@[i as int].1.model(),
                    ));
                }
                out.set(obj.items[i].0.as_str(), to_eval_value(&obj.items[i].1));
                i += 1;
            }
            if let Some(syntax) = &obj.css {
                out.set_css_type(syntax.clone());
            }
            let r = EvalValue::Obj(out);
            proof {
                assert(r.model()->Obj_0 =~= eval_of(value.model())->Obj_0);
            }
            r
        },
        JsValue::Proxy(_) => EvalValue::Undefined,
        JsValue::Callable(_) => EvalValue::Undefined,
    }
}

/// Gives a value of the style calls as the evaluator sees it.
pub fn from_eval_value(value: &EvalValue) -> (r: JsValue)
    ensures
        r.model() == value.model(),
    decreases value,
{
    match value {
        EvalValue::Undefined => JsValue::Undefined,
        EvalValue::Null => JsValue::Null,
        EvalValue::Bool(b) => JsValue::Bool(*b),
        EvalValue::Num(n) => JsValue::Num(*n),
        EvalValue::Str(s) => JsValue::Str(s.clone()),
        EvalValue::Arr(items) => {
            let mut out: Vec<JsValue> = Vec::new();
            let mut i: usize = 0;
            while i < items.len()
                invariant
                    *value == EvalValue::Arr(*items),
                    i <= items@.len(),
                    out@.len() == i,
                    forall|j: int| 0 <= j < i ==> (#[trigger] out@[j]).model() == items@[j].model(),
                decreases items@.len() - i,
            {
                proof {
                    assert(decreases_to!(*value => value->Arr_0));
                    assert(decreases_to!(*items => items@[i as int]));
                }
                out.push(from_eval_value(&items[i]));
                i += 1;
            }
            let r = JsValue::Arr(out);
            proof {
                assert(r.model()->Arr_0 =~= value.model()->Arr_0);
            }
            r
        },
        EvalValue::Obj(map) => {
            let mut out: Vec<(String, JsValue)> = Vec::new();
            let mut i: usize = 0;
            while i < map.items.len()
                invariant
                    *value == EvalValue::Obj(*map),
                    i <= map.items@.len(),
                    out@.len() == i,
                    forall|j: int|
                        0 <= j < i ==> (#[trigger] out@[j]).0@ == map.items@[j].0@
                            && out@[j].1.model() == map.items@[j].1.model(),
                decreases map.items@.len() - i,
            {
                proof {
                    assert(decreases_to!(*value => value->Obj_0));
                    assert(decreases_to!(*map => map.items));
                    assert(decreases_to!(map.items => map.items@[i as int]));
                }
                out.push((map.items[i].0.clone(), from_eval_value(&map.items[i].1)));
                i += 1;
            }
            let obj = JsObj { items: out, css: copy_opt(&map.css) };
            proof {
                assert(obj.model().entries =~= map.model().entries);
                assert(obj.model() =~= map.model());
            }
            JsValue::Obj(obj)
        },
    }
}

} // verus!
