//! What names become: of properties, of constants and of markers.

use crate::hash::hash_text;
use crate::options::ResolvedOptions;
use crate::rules::{json_of_value, RuleModel};
use crate::shared::dashify::{class_char, dash_before, dashed_upto, sanitized, with_dashes};
use crate::shared::define_consts::{
    const_key, consts_output, consts_upto, export_id, object_entries, safe_key,
};
use crate::shared::markers::{default_marker, marker_entries, marker_id};
use crate::text::has_prefix;
use crate::value::{put, put_keeps_others, put_then_read, value_of, Val};
use vstd::prelude::*;

verus! {

/// Whether a character is a capital.
pub open spec fn capital(c: char) -> bool {
    'A' <= c <= 'Z'
}

/// Whether a character is a small letter.
pub open spec fn small(c: char) -> bool {
    'a' <= c <= 'z'
}

/// A text without its dashes.
pub open spec fn undashed(s: Seq<char>) -> Seq<char> {
    s.filter(|c: char| c != '-')
}

proof fn lemma_undashed_push(s: Seq<char>, c: char)
    ensures
        undashed(s.push(c)) == (if c == '-' {
            undashed(s)
        } else {
            undashed(s).push(c)
        }),
{
    reveal(Seq::filter);
    assert(s.push(c).drop_last() =~= s);
}

proof fn lemma_dashed(s: Seq<char>, k: int)
    requires
        0 <= k <= s.len(),
    ensures
        ({
            let out = dashed_upto(s, k);
            &&& undashed(out) == undashed(s.take(k))
            &&& k > 0 ==> out.len() > 0 && out.last() == s[k - 1]
            &&& k == 0 ==> out.len() == 0
            &&& forall|j: int|
                0 <= j < out.len() && capital(#[trigger] out[j]) ==> j > 0 && !small(out[j - 1])
            &&& (forall|i: int| 0 <= i < k ==> !capital(#[trigger] s[i])) ==> out == s.take(k)
        }),
    decreases k,
{
    if k > 0 {
        lemma_dashed(s, k - 1);
        let before = dashed_upto(s, k - 1);
        let out = dashed_upto(s, k);
        let c = s[k - 1];
        assert(s.take(k) =~= s.take(k - 1).push(c));
        lemma_undashed_push(s.take(k - 1), c);
        if dash_before(s, k - 1) {
            lemma_undashed_push(before, '-');
            lemma_undashed_push(before.push('-'), c);
        } else {
            lemma_undashed_push(before, c);
        }
        assert forall|j: int| 0 <= j < out.len() && capital(#[trigger] out[j]) implies j > 0 && !small(
            out[j - 1],
        ) by {
            if j < before.len() {
                assert(out[j] == before[j]);
                if j > 0 {
                    assert(out[j - 1] == before[j - 1]);
                }
            } else if !dash_before(s, k - 1) {
                assert(k > 1);
                assert(before.last() == s[k - 2]);
            }
        }
    } else {
        assert(s.take(0) =~= Seq::empty());
        reveal(Seq::filter);
    }
}

/// The parts of a name in camel case are told apart by dashes: no capital begins the name or
/// follows a small letter any more, nothing but dashes is added, and a name without capitals
/// stays.
pub proof fn names_are_dashed(s: Seq<char>)
    ensures
        undashed(with_dashes(s)) == undashed(s),
        forall|j: int|
            0 <= j < with_dashes(s).len() && capital(#[trigger] with_dashes(s)[j]) ==> j > 0
                && !small(with_dashes(s)[j - 1]),
        (forall|i: int| 0 <= i < s.len() ==> !capital(#[trigger] s[i])) ==> with_dashes(s) == s,
{
    lemma_dashed(s, s.len() as int);
    assert(s.take(s.len() as int) =~= s);
}

/// What is left of the name of a class is what may stand in one, in its order; a name that may
/// stand as it is stays.
pub proof fn class_names_are_clean(s: Seq<char>)
    ensures
        forall|i: int|
            0 <= i < sanitized(s).len() ==> {
                let c = #[trigger] sanitized(s)[i];
                capital(c) || small(c) || '0' <= c <= '9' || c == '.' || c == '_' || c == '-'
            },
        (forall|i: int|
            0 <= i < s.len() ==> (capital(#[trigger] s[i]) || small(s[i]) || '0' <= s[i] <= '9'
                || s[i] == '.' || s[i] == '_' || s[i] == '-')) ==> sanitized(s) == s,
    decreases s.len(),
{
    reveal(Seq::filter);
    if s.len() > 0 {
        class_names_are_clean(s.drop_last());
        let last = s.last();
        let head = sanitized(s.drop_last());
        if class_char(last) {
            assert(sanitized(s) == head.push(last));
        }
        assert forall|i: int| 0 <= i < sanitized(s).len() implies ({
            let c = #[trigger] sanitized(s)[i];
            capital(c) || small(c) || '0' <= c <= '9' || c == '.' || c == '_' || c == '-'
        }) by {
            if i < head.len() {
                assert(sanitized(s)[i] == head[i]);
            }
        }
        if forall|i: int|
            0 <= i < s.len() ==> (capital(#[trigger] s[i]) || small(s[i]) || '0' <= s[i] <= '9' || s[i]
                == '.' || s[i] == '_' || s[i] == '-') {
            assert(s[s.len() - 1] == last);
            assert forall|i: int| 0 <= i < s.drop_last().len() implies (capital(
                #[trigger] s.drop_last()[i],
            ) || small(s.drop_last()[i]) || '0' <= s.drop_last()[i] <= '9' || s.drop_last()[i] == '.'
                || s.drop_last()[i] == '_' || s.drop_last()[i] == '-') by {
                assert(s[i] == s.drop_last()[i]);
            }
            assert(s.drop_last().push(last) =~= s);
        }
    }
}

/// The name of an exported variable or constant: custom properties name themselves, everything
/// else is named after its file, its export and its key.
pub open spec fn exported_name(
    key: Seq<char>,
    file: Seq<char>,
    export: Seq<char>,
    options: ResolvedOptions,
    name: Seq<char>,
) -> bool {
    let hashed = options.class_name_prefix@ + hash_text(file + "//"@ + export + "."@ + key);
    if has_prefix(key, "--"@) {
        key == "--"@ + name
    } else if options.debug && options.enable_debug_class_names {
        name == safe_key(key) + "-"@ + hashed
    } else {
        name == hashed
    }
}

proof fn lemma_exported(key: Seq<char>, file: Seq<char>, export: Seq<char>, options: ResolvedOptions)
    ensures
        exported_name(key, file, export, options, const_key(key, export_id(file, export), options)),
{
    reveal_strlit("--");
    if has_prefix(key, "--"@) {
        assert(key =~= "--"@ + key.skip(2));
    }
}

/// Whether a rule is that of a constant.
pub open spec fn keeps_constant(rule: RuleModel, name: Seq<char>, v: Val) -> bool {
    &&& rule.class_name == name
    &&& rule.const_key == Some(name)
    &&& rule.const_val == Some(json_of_value(v))
    &&& rule.ltr.len() == 0
    &&& rule.rtl is None
}

proof fn lemma_consts(
    e: Seq<(Seq<char>, Val)>,
    id: Seq<char>,
    options: ResolvedOptions,
    k: int,
)
    requires
        0 <= k <= e.len(),
        consts_upto(e, id, options, k) is Ok,
    ensures
        ({
            let out = consts_upto(e, id, options, k)->Ok_0;
            &&& out.rules.len() == k
            &&& forall|i: int|
                0 <= i < k ==> keeps_constant(
                    #[trigger] out.rules[i],
                    const_key(e[i].0, id, options),
                    e[i].1,
                )
            &&& forall|i: int|
                0 <= i < k && (forall|j: int| i < j < k ==> (#[trigger] e[j]).0 != e[i].0) ==> value_of(
                    out.entries,
                    (#[trigger] e[i]).0,
                ) == Some(e[i].1)
        }),
    decreases k,
{
    if k > 0 {
        lemma_consts(e, id, options, k - 1);
        let before = consts_upto(e, id, options, k - 1)->Ok_0;
        let out = consts_upto(e, id, options, k)->Ok_0;
        put_then_read(before.entries, e[k - 1].0, e[k - 1].1);
        assert forall|i: int| 0 <= i < k implies keeps_constant(
            #[trigger] out.rules[i],
            const_key(e[i].0, id, options),
            e[i].1,
        ) by {
            if i < k - 1 {
                assert(out.rules[i] == before.rules[i]);
            }
        }
        assert forall|i: int|
            0 <= i < k && (forall|j: int| i < j < k ==> (#[trigger] e[j]).0 != e[i].0) implies value_of(
            out.entries,
            (#[trigger] e[i]).0,
        ) == Some(e[i].1) by {
            if i < k - 1 {
                assert(e[k - 1].0 != e[i].0);
                put_keeps_others(before.entries, e[k - 1].0, e[k - 1].1, e[i].0);
            }
        }
    }
}

/// Every constant that a file exports has a rule with its value under the name that the file, the
/// export and its key give it, and the object that stands for them gives each key its value.
pub proof fn constants_keep_their_values(
    v: Val,
    file: Seq<char>,
    export: Seq<char>,
    options: ResolvedOptions,
)
    requires
        consts_output(v, file, export, options) is Ok,
    ensures
        object_entries(v) matches Some(e) && {
            let out = consts_output(v, file, export, options)->Ok_0;
            &&& out.rules.len() == e.len()
            &&& forall|i: int|
                0 <= i < e.len() ==> ({
                    let rule = #[trigger] out.rules[i];
                    exported_name(e[i].0, file, export, options, rule.class_name) && keeps_constant(
                        rule,
                        rule.class_name,
                        e[i].1,
                    )
                })
            &&& forall|i: int|
                0 <= i < e.len() && (forall|j: int|
                    i < j < e.len() ==> (#[trigger] e[j]).0 != e[i].0) ==> value_of(
                    out.entries,
                    (#[trigger] e[i]).0,
                ) == Some(e[i].1)
        },
{
    let e = object_entries(v)->0;
    let id = export_id(file, export);
    let out = consts_output(v, file, export, options)->Ok_0;
    lemma_consts(e, id, options, e.len() as int);
    assert forall|i: int| 0 <= i < e.len() implies ({
        let rule = #[trigger] out.rules[i];
        exported_name(e[i].0, file, export, options, rule.class_name) && keeps_constant(
            rule,
            rule.class_name,
            e[i].1,
        )
    }) by {
        assert(keeps_constant(out.rules[i], const_key(e[i].0, id, options), e[i].1));
        lemma_exported(e[i].0, file, export, options);
    }
}

/// The object of a marker gives the class of the marker under its own name, and is one of
/// styles; the marker of every file is named after the prefix alone, and one that a file exports
/// after the file and the export.
pub proof fn markers_name_themselves(
    file: Seq<char>,
    export: Seq<char>,
    prefix: Seq<char>,
    id: Seq<char>,
)
    requires
        id != "$$css"@,
    ensures
        value_of(marker_entries(id), id) == Some(Val::Str(id)),
        value_of(marker_entries(id), "$$css"@) == Some(Val::Bool(true)),
        default_marker(prefix) == prefix + "-default-marker"@,
        marker_id(file, export, prefix) == prefix + hash_text(file + "//"@ + export),
{
    let none = Seq::<(Seq<char>, Val)>::empty();
    put_then_read(none, id, Val::Str(id));
    put_keeps_others(put(none, id, Val::Str(id)), "$$css"@, Val::Bool(true), id);
    put_then_read(put(none, id, Val::Str(id)), "$$css"@, Val::Bool(true));
}

} // verus!
