//! What the paths between files lead to.

use crate::module_names::{import_source, import_sources_are_relative};
use crate::paths::{
    downward, downward_upto, folded, folded_upto, folding_leaves_no_dots, names, names_upto,
    no_double_dots, normal_path, parent_of, path_text, relative_path, rooted,
};
use crate::shared::dev_naming::{
    common_from, lemma_common, lemma_walk_down, lemma_walk_up, walked, way, way_leads_there,
};
use crate::text::{has_prefix, join_texts, split_at_char};
use crate::text_laws::{
    joined_parts_split_again, one_part, parts_lack_the_separator, parts_of_a_whole,
};
use vstd::prelude::*;

verus! {

/// Whether a part of a path is one of its names, and the only one in it.
pub(crate) open spec fn single(name: Seq<char>) -> bool {
    name.len() > 0 && !name.contains('/') && name != "."@
}

pub(crate) open spec fn all_single(v: Seq<Seq<char>>) -> bool {
    forall|i: int| 0 <= i < v.len() ==> single(#[trigger] v[i])
}

pub(crate) proof fn lemma_names_single(parts: Seq<Seq<char>>, k: int)
    requires
        0 <= k <= parts.len(),
        forall|i: int| 0 <= i < parts.len() ==> !(#[trigger] parts[i]).contains('/'),
    ensures
        all_single(names_upto(parts, true, k)),
    decreases k,
{
    if k > 0 {
        lemma_names_single(parts, k - 1);
        let before = names_upto(parts, true, k - 1);
        let now = names_upto(parts, true, k);
        assert(!parts[k - 1].contains('/'));
        assert forall|i: int| 0 <= i < now.len() implies single(#[trigger] now[i]) by {
            if i < before.len() {
                assert(now[i] == before[i]);
            }
        }
    }
}

pub(crate) proof fn lemma_fold_single(v: Seq<Seq<char>>, k: int)
    requires
        0 <= k <= v.len(),
        all_single(v),
    ensures
        all_single(folded_upto(v, true, k)),
    decreases k,
{
    if k > 0 {
        lemma_fold_single(v, k - 1);
        let before = folded_upto(v, true, k - 1);
        let now = folded_upto(v, true, k);
        assert(single(v[k - 1]));
        assert forall|i: int| 0 <= i < now.len() implies single(#[trigger] now[i]) by {
            if i < before.len() {
                assert(now[i] == before[i]);
            }
        }
    }
}

proof fn lemma_names_of_two(a: Seq<Seq<char>>, b: Seq<Seq<char>>, k: int)
    requires
        0 <= k <= b.len(),
    ensures
        names_upto(a + b, true, a.len() + k) == names_upto(a, true, a.len() as int) + names_upto(
            b,
            true,
            k,
        ),
    decreases k,
{
    if k > 0 {
        lemma_names_of_two(a, b, k - 1);
        assert((a + b)[a.len() + k - 1] == b[k - 1]);
        assert(names_upto(a + b, true, a.len() + k) =~= names_upto(a, true, a.len() as int)
            + names_upto(b, true, k));
    } else {
        lemma_names_of_first(a, b, a.len() as int);
        assert(names_upto(a, true, a.len() as int) + names_upto(b, true, 0) =~= names_upto(
            a,
            true,
            a.len() as int,
        ));
    }
}

proof fn lemma_names_of_first(a: Seq<Seq<char>>, b: Seq<Seq<char>>, k: int)
    requires
        0 <= k <= a.len(),
    ensures
        names_upto(a + b, true, k) == names_upto(a, true, k),
    decreases k,
{
    if k > 0 {
        lemma_names_of_first(a, b, k - 1);
        assert((a + b)[k - 1] == a[k - 1]);
    }
}

proof fn lemma_names_kept(v: Seq<Seq<char>>, k: int)
    requires
        0 <= k <= v.len(),
        all_single(v),
    ensures
        names_upto(v, true, k) == v.take(k),
    decreases k,
{
    if k > 0 {
        lemma_names_kept(v, k - 1);
        assert(single(v[k - 1]));
        assert(v.take(k) =~= v.take(k - 1).push(v[k - 1]));
    }
}

/// The names in a text that goes on behind the root.
pub(crate) open spec fn names_in(text: Seq<char>) -> Seq<Seq<char>> {
    names_upto(split_at_char(text, '/'), true, split_at_char(text, '/').len() as int)
}

pub(crate) proof fn lemma_names_in_joined(v: Seq<Seq<char>>)
    requires
        all_single(v),
    ensures
        names_in(join_texts(v, "/"@)) == v,
{
    reveal_strlit("/");
    assert("/"@ =~= seq!['/']);
    if v.len() > 0 {
        assert forall|i: int| 0 <= i < v.len() implies !(#[trigger] v[i]).contains('/') by {
            assert(single(v[i]));
        }
        joined_parts_split_again(v, '/');
        lemma_names_kept(v, v.len() as int);
        assert(v.take(v.len() as int) =~= v);
    } else {
        let e = Seq::<char>::empty();
        one_part(e, '/');
        assert(join_texts(v, "/"@) =~= e);
        reveal_with_fuel(names_upto, 2);
        assert(names_in(e) =~= v);
    }
}

pub(crate) proof fn lemma_names_in_two(x: Seq<char>, y: Seq<char>)
    ensures
        names_in(x + "/"@ + y) == names_in(x) + names_in(y),
{
    reveal_strlit("/");
    assert("/"@ =~= seq!['/']);
    parts_of_a_whole(x, '/', y);
    lemma_names_of_two(
        split_at_char(x, '/'),
        split_at_char(y, '/'),
        split_at_char(y, '/').len() as int,
    );
}

pub(crate) proof fn lemma_names_of_path(v: Seq<Seq<char>>)
    requires
        all_single(v),
    ensures
        rooted(path_text(true, v)),
        names(path_text(true, v)) == v,
{
    let e = Seq::<char>::empty();
    let text = join_texts(v, "/"@);
    lemma_names_in_two(e, text);
    lemma_names_in_joined(v);
    lemma_names_in_joined(Seq::empty());
    assert(join_texts(Seq::empty(), "/"@) =~= e);
    reveal_strlit("/");
    assert(e + "/"@ + text =~= path_text(true, v));
    assert(Seq::<Seq<char>>::empty() + v =~= v);
}

pub(crate) proof fn lemma_fold_on(v: Seq<Seq<char>>, w: Seq<Seq<char>>, k: int)
    requires
        0 <= k <= v.len(),
    ensures
        folded_upto(v + w, true, k) == folded_upto(v, true, k),
    decreases k,
{
    if k > 0 {
        lemma_fold_on(v, w, k - 1);
        assert((v + w)[k - 1] == v[k - 1]);
    }
}

pub(crate) proof fn lemma_fold_way(v: Seq<Seq<char>>, b: Seq<Seq<char>>, k: int)
    requires
        no_double_dots(b),
        all_single(b),
        no_double_dots(folded_upto(v, true, v.len() as int)),
        0 <= k <= way(folded_upto(v, true, v.len() as int), b).len(),
    ensures
        ({
            let a = folded_upto(v, true, v.len() as int);
            folded_upto(v + way(a, b), true, v.len() + k) == walked(a, way(a, b), k)
        }),
    decreases k,
{
    let a = folded_upto(v, true, v.len() as int);
    let w = way(a, b);
    let n = common_from(a, b, 0);
    lemma_common(a, b, 0);
    if k == 0 {
        lemma_fold_on(v, w, v.len() as int);
    } else {
        lemma_fold_way(v, b, k - 1);
        assert((v + w)[v.len() + k - 1] == w[k - 1]);
        reveal_strlit(".");
        reveal_strlit("..");
        if k <= a.len() - n {
            lemma_walk_up(a, b, k - 1);
            let at = a.take(a.len() - (k - 1));
            assert(at.last() == a[a.len() - k]);
            assert(w[k - 1] == ".."@);
        } else {
            lemma_walk_down(a, b, k - 1 - (a.len() - n));
            assert(w[k - 1] == b[n + k - 1 - (a.len() - n)]);
            assert(single(w[k - 1]));
            assert(w[k - 1] != ".."@);
        }
    }
}

proof fn lemma_all_downward(v: Seq<Seq<char>>, k: int)
    requires
        0 <= k <= v.len(),
        no_double_dots(v),
    ensures
        downward_upto(v, k) == v.take(k),
    decreases k,
{
    if k > 0 {
        lemma_all_downward(v, k - 1);
        assert(v[k - 1] != ".."@);
        assert(v.take(k) =~= v.take(k - 1).push(v[k - 1]));
    }
}

pub(crate) proof fn lemma_rooted_names(path: Seq<char>)
    requires
        rooted(path),
    ensures
        all_single(names(path)),
        all_single(folded(path)),
        no_double_dots(folded(path)),
        downward(path) == folded(path),
{
    parts_lack_the_separator(path, '/');
    lemma_names_single(split_at_char(path, '/'), split_at_char(path, '/').len() as int);
    lemma_fold_single(names(path), names(path).len() as int);
    folding_leaves_no_dots(path);
    lemma_all_downward(folded(path), folded(path).len() as int);
    assert(folded(path).take(folded(path).len() as int) =~= folded(path));
}

pub(crate) proof fn lemma_way_single(a: Seq<Seq<char>>, b: Seq<Seq<char>>)
    requires
        all_single(b),
    ensures
        all_single(way(a, b)),
{
    let w = way(a, b);
    let n = common_from(a, b, 0);
    lemma_common(a, b, 0);
    reveal_strlit(".");
    reveal_strlit("..");
    assert forall|i: int| 0 <= i < w.len() implies single(#[trigger] w[i]) by {
        if i < a.len() - n {
            assert(w[i] == ".."@);
        } else {
            assert(w[i] == b[n + i - (a.len() - n)]);
        }
    }
}

/// Taken from the directory of the importing file, the path under which it imports another
/// leads to that file.
pub proof fn import_sources_lead_there(from: Seq<char>, to: Seq<char>)
    requires
        rooted(from),
        rooted(to),
        parent_of(from) is Some,
    ensures
        normal_path(parent_of(from)->0 + "/"@ + import_source(from, to)) == normal_path(to),
        import_source(from, to).len() > 0,
        import_source(from, to)[0] == '.',
{
    let dir = parent_of(from)->0;
    let v = names(from).drop_last();
    lemma_rooted_names(from);
    lemma_rooted_names(to);
    assert(all_single(v)) by {
        assert forall|i: int| 0 <= i < v.len() implies single(#[trigger] v[i]) by {
            assert(v[i] == names(from)[i]);
        }
    }
    lemma_names_of_path(v);
    lemma_rooted_names(dir);
    let a = folded(dir);
    let b = folded(to);
    let w = way(a, b);
    let text = join_texts(w, "/"@);
    let source = import_source(from, to);
    lemma_way_single(a, b);
    lemma_names_in_joined(w);
    assert(relative_path(dir, to) == text);
    assert(names_in(source) == w) by {
        if !has_prefix(text, "."@) {
            reveal_strlit(".");
            reveal_strlit("/");
            reveal_strlit("./");
            lemma_names_in_two("."@, text);
            assert("."@ + "/"@ + text =~= source);
            one_part("."@, '/');
            reveal_with_fuel(names_upto, 2);
            assert(names_in("."@) =~= Seq::empty());
            assert(Seq::<Seq<char>>::empty() + w =~= w);
        }
    }
    let whole = dir + "/"@ + source;
    lemma_names_in_two(dir, source);
    assert(rooted(whole)) by {
        assert(whole[0] == dir[0]);
    }
    assert(names(whole) == v + w);
    lemma_fold_way(v, b, w.len() as int);
    way_leads_there(a, b);
    import_sources_are_relative(from, to);
}

} // verus!
