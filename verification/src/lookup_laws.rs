//! Where modules are looked for: what aliases stand for, which package a specifier names, and
//! which of several places is taken.

use crate::module_names::{
    alias_values, captured, extension_from, possible_paths, starred_from, without_extension,
    EXTENSIONS,
};
use crate::module_resolution::{
    file_named, in_package, main_from, main_guesses, package_dir, packages_above, FactsModel,
};
use crate::text::{has_prefix, has_suffix, next_char};
use crate::url_paths::{before_query, decoded_from, hex_value, package_parts, slashed, url_joined};
use vstd::prelude::*;

verus! {

proof fn lemma_next_at(s: Seq<char>, c: char, from: int, at: int)
    requires
        0 <= from <= at <= s.len(),
        forall|i: int| from <= i < at ==> s[i] != c,
        at < s.len() ==> s[at] == c,
    ensures
        next_char(s, c, from) == at,
    decreases at - from,
{
    if from < at {
        lemma_next_at(s, c, from + 1, at);
    }
}

/// A text with one star in it.
pub open spec fn around_star(before: Seq<char>, behind: Seq<char>) -> Seq<char> {
    before + seq!['*'] + behind
}

proof fn lemma_plain_from(s: Seq<char>, t: Seq<char>, i: int)
    requires
        0 <= i <= s.len(),
        forall|j: int| i <= j < s.len() ==> s[j] != '*',
    ensures
        starred_from(s, t, i) == s.skip(i),
    decreases s.len() - i,
{
    if i < s.len() {
        lemma_plain_from(s, t, i + 1);
        assert(s.skip(i) =~= seq![s[i]] + s.skip(i + 1));
    } else {
        assert(s.skip(i) =~= Seq::empty());
    }
}

proof fn lemma_starred(before: Seq<char>, behind: Seq<char>, t: Seq<char>, i: int)
    requires
        0 <= i <= before.len(),
        !before.contains('*'),
        !behind.contains('*'),
    ensures
        starred_from(around_star(before, behind), t, i) == before.skip(i) + t + behind,
    decreases before.len() - i,
{
    let s = around_star(before, behind);
    if i < before.len() {
        assert(before.contains(before[i]));
        assert(s[i] == before[i]);
        lemma_starred(before, behind, t, i + 1);
        assert(seq![s[i]] + (before.skip(i + 1) + t + behind) =~= before.skip(i) + t + behind);
    } else {
        assert(s[i] == '*');
        assert forall|j: int| i + 1 <= j < s.len() implies s[j] != '*' by {
            assert(s[j] == behind[j - i - 1]);
            assert(behind.contains(behind[j - i - 1]));
        }
        lemma_plain_from(s, t, i + 1);
        assert(s.skip(i + 1) =~= behind);
        assert(before.skip(i) =~= Seq::empty());
        assert(t + behind =~= before.skip(i) + t + behind);
    }
}

/// The star of an alias stands for whatever a specifier has in its place, and each value of the
/// alias has that in the place of its own star.
pub proof fn stars_stand_for_the_same(
    before: Seq<char>,
    behind: Seq<char>,
    rest: Seq<char>,
    values: Seq<Seq<char>>,
    i: int,
    head: Seq<char>,
    tail: Seq<char>,
)
    requires
        !before.contains('*') && !behind.contains('*'),
        !head.contains('*') && !tail.contains('*'),
        0 <= i < values.len(),
        values[i] == around_star(head, tail),
    ensures
        ({
            let out = alias_values(around_star(before, behind), values, before + rest + behind);
            out.len() == values.len() && out[i] == head + rest + tail
        }),
{
    let alias = around_star(before, behind);
    let specifier = before + rest + behind;
    let n = before.len() as int;
    assert(alias[n] == '*');
    assert(alias.contains('*'));
    assert forall|j: int| 0 <= j < n implies alias[j] != '*' by {
        assert(alias[j] == before[j]);
        assert(before.contains(before[j]));
    }
    lemma_next_at(alias, '*', 0, n);
    assert forall|j: int| n + 1 <= j < alias.len() implies alias[j] != '*' by {
        assert(alias[j] == behind[j - n - 1]);
        assert(behind.contains(behind[j - n - 1]));
    }
    lemma_next_at(alias, '*', n + 1, alias.len() as int);
    assert(alias.take(n) =~= before);
    assert(alias.subrange(n + 1, alias.len() as int) =~= behind);
    assert(specifier.subrange(0, n) =~= before);
    let end = specifier.len() - behind.len();
    assert(specifier.subrange(end, specifier.len() as int) =~= behind);
    assert(has_prefix(specifier, before));
    assert(has_suffix(specifier, behind));
    assert(specifier.subrange(n, end) =~= rest);
    assert(captured(alias, specifier) == Some(rest));
    lemma_starred(head, tail, rest, 0);
    assert(head.skip(0) =~= head);
}

/// An alias counts only for specifiers that it fits: one without a star for itself alone, and one
/// with a star for those that begin and end as it does.
pub proof fn aliases_fit(
    alias: Seq<char>,
    before: Seq<char>,
    behind: Seq<char>,
    values: Seq<Seq<char>>,
    specifier: Seq<char>,
)
    ensures
        !alias.contains('*') ==> alias_values(alias, values, specifier) == (if specifier == alias {
            values
        } else {
            Seq::empty()
        }),
        alias == around_star(before, behind) && !before.contains('*') && !behind.contains('*')
            && alias_values(alias, values, specifier).len() > 0 ==> has_prefix(specifier, before)
            && has_suffix(specifier, behind),
{
    if alias == around_star(before, behind) && !before.contains('*') && !behind.contains('*') {
        let n = before.len() as int;
        assert(alias[n] == '*');
        assert(alias.contains('*'));
        assert forall|j: int| 0 <= j < n implies alias[j] != '*' by {
            assert(alias[j] == before[j]);
            assert(before.contains(before[j]));
        }
        lemma_next_at(alias, '*', 0, n);
        assert forall|j: int| n + 1 <= j < alias.len() implies alias[j] != '*' by {
            assert(alias[j] == behind[j - n - 1]);
            assert(behind.contains(behind[j - n - 1]));
        }
        lemma_next_at(alias, '*', n + 1, alias.len() as int);
        assert(alias.take(n) =~= before);
        assert(alias.subrange(n + 1, alias.len() as int) =~= behind);
    }
}

/// A specifier of a package is the name of the package and the way inside it: the name goes up to
/// the first slash, or up to the second where it has a scope.
pub proof fn specifiers_name_their_package(
    scope: Option<Seq<char>>,
    name: Seq<char>,
    way: Option<Seq<char>>,
)
    requires
        name.len() > 0 && !name.contains('/') && !name.contains('%') && !name.contains('\\'),
        scope is None ==> name[0] != '.' && name[0] != '@',
        scope matches Some(s) ==> !s.contains('/') && !s.contains('%') && !s.contains('\\'),
    ensures
        ({
            let whole = match scope {
                Some(s) => seq!['@'] + s + seq!['/'] + name,
                None => name,
            };
            match way {
                None => package_parts(whole) == Some((whole, seq!['.'])),
                Some(w) => package_parts(whole + seq!['/'] + w) == Some(
                    (whole, seq!['.', '/'] + w),
                ),
            }
        }),
{
    let whole = match scope {
        Some(s) => seq!['@'] + s + seq!['/'] + name,
        None => name,
    };
    let s = match way {
        None => whole,
        Some(w) => whole + seq!['/'] + w,
    };
    let n = whole.len() as int;
    reveal_strlit("@");
    reveal_strlit(".");
    assert("@"@.len() == 1 && "."@.len() == 1);
    assert(s.take(n) =~= whole);
    assert(s.subrange(0, 1)[0] == s[0]);
    if way is Some {
        assert(s[n] == '/');
        assert(s.skip(n) =~= seq!['/'] + way->0);
        assert("."@ + s.skip(n) =~= seq!['.', '/'] + way->0);
    } else {
        assert(s.skip(n) =~= Seq::empty());
        assert("."@ + s.skip(n) =~= seq!['.']);
    }
    assert(!whole.contains('%') && !whole.contains('\\')) by {
        if whole.contains('%') {
            let j = choose|j: int| 0 <= j < whole.len() && whole[j] == '%';
            lemma_char_of(scope, name, whole, j);
        }
        if whole.contains('\\') {
            let j = choose|j: int| 0 <= j < whole.len() && whole[j] == '\\';
            lemma_char_of(scope, name, whole, j);
        }
    }
    match scope {
        None => {
            assert forall|j: int| 0 <= j < n implies s[j] != '/' by {
                assert(s[j] == name[j]);
                assert(name.contains(name[j]));
            }
            lemma_next_at(s, '/', 0, n);
            if has_prefix(s, "@"@) {
                assert(s.subrange(0, 1)[0] == '@');
            }
            if has_prefix(whole, "."@) {
                assert(whole.subrange(0, 1)[0] == '.');
            }
        },
        Some(c) => {
            let m: int = 1int + c.len();
            assert(s[0] == '@');
            assert(s.subrange(0, 1) =~= "@"@);
            assert forall|j: int| 0 <= j < m implies s[j] != '/' by {
                if j > 0 {
                    assert(s[j] == c[j - 1]);
                    assert(c.contains(c[j - 1]));
                }
            }
            assert(s[m] == '/');
            lemma_next_at(s, '/', 0, m);
            assert forall|j: int| m + 1 <= j < n implies s[j] != '/' by {
                assert(s[j] == name[j - m - 1]);
                assert(name.contains(name[j - m - 1]));
            }
            lemma_next_at(s, '/', m + 1, n);
            if has_prefix(whole, "."@) {
                assert(whole.subrange(0, 1)[0] == '.');
                assert(whole[0] == '@');
            }
        },
    }
}

proof fn lemma_char_of(scope: Option<Seq<char>>, name: Seq<char>, whole: Seq<char>, j: int)
    requires
        whole == (match scope {
            Some(s) => seq!['@'] + s + seq!['/'] + name,
            None => name,
        }),
        0 <= j < whole.len(),
    ensures
        name.contains(whole[j]) || whole[j] == '@' || whole[j] == '/' || (scope matches Some(s)
            && s.contains(whole[j])),
{
    match scope {
        None => {
            assert(whole[j] == name[j]);
        },
        Some(s) => {
            if j == 0 {
            } else if j < 1 + s.len() {
                assert(whole[j] == s[j - 1]);
            } else if j > 1 + s.len() {
                assert(whole[j] == name[j - 2 - s.len()]);
            }
        },
    }
}

/// A package is taken from the nearest `node_modules` that has it: the directories below have
/// none of its name.
pub proof fn the_nearest_package_is_taken(
    f: FactsModel,
    path: Seq<char>,
    name: Seq<char>,
    subpath: Seq<char>,
    k: int,
)
    requires
        packages_above(f, path, name, subpath, k) is Ok,
    ensures
        ({
            let r = packages_above(f, path, name, subpath, k);
            ||| exists|i: int|
                {
                    &&& 0 <= i <= k
                    &&& f.is_dir(#[trigger] package_dir(path, name, i)) == Ok::<
                        bool,
                        crate::module_resolution::QueryModel,
                    >(true)
                    &&& r == in_package(f, package_dir(path, name, i), subpath)
                    &&& forall|j: int|
                        i < j <= k ==> f.is_dir(#[trigger] package_dir(path, name, j)) == Ok::<
                            bool,
                            crate::module_resolution::QueryModel,
                        >(false)
                }
            ||| r->Ok_0 is Fatal && forall|j: int|
                0 <= j <= k ==> f.is_dir(#[trigger] package_dir(path, name, j)) == Ok::<
                    bool,
                    crate::module_resolution::QueryModel,
                >(false)
        }),
    decreases k + 1,
{
    if k >= 0 {
        let dir = package_dir(path, name, k);
        if f.is_dir(dir)->Ok_0 {
            assert(f.is_dir(package_dir(path, name, k)) == Ok::<
                bool,
                crate::module_resolution::QueryModel,
            >(true));
        } else {
            the_nearest_package_is_taken(f, path, name, subpath, k - 1);
        }
    }
}

/// The main file of a package is the first of its guesses that is a file.
pub proof fn the_first_guess_is_the_main_file(
    f: FactsModel,
    dir: Seq<char>,
    guesses: Seq<Seq<char>>,
    i: int,
)
    requires
        0 <= i <= guesses.len(),
        main_from(f, dir, guesses, i) is Ok,
    ensures
        match main_from(f, dir, guesses, i)->Ok_0 {
            Some(p) => exists|j: int|
                i <= j < guesses.len() && #[trigger] guess_is(f, dir, guesses[j], Some(p)) && forall|
                    l: int,
                |
                    i <= l < j ==> #[trigger] guess_is(f, dir, guesses[l], None),
            None => forall|l: int|
                i <= l < guesses.len() ==> #[trigger] guess_is(f, dir, guesses[l], None),
        },
    decreases guesses.len() - i,
{
    if i < guesses.len() {
        let g = file_named(f, url_joined(dir, slashed(before_query(guesses[i]))));
        if g->Ok_0 is Some {
            assert(guess_is(f, dir, guesses[i], g->Ok_0));
        } else {
            the_first_guess_is_the_main_file(f, dir, guesses, i + 1);
            assert(guess_is(f, dir, guesses[i], None));
        }
    }
}

/// Whether a guess at the main file is that file, or none.
pub open spec fn guess_is(f: FactsModel, dir: Seq<char>, guess: Seq<char>, r: Option<Seq<char>>) -> bool {
    file_named(f, url_joined(dir, slashed(before_query(guess)))) == Ok::<
        Option<Seq<char>>,
        crate::module_resolution::QueryModel,
    >(r)
}

/// What is named as the main file is tried as it is, then with an extension, then as a directory,
/// and at last the index of the package is.
pub proof fn main_files_are_tried_in_order(main: Seq<char>)
    ensures
        main_guesses(Some(main)).len() == 10,
        main_guesses(Some(main))[0] == main,
        main_guesses(Some(main))[1] == main + ".js"@,
        main_guesses(Some(main))[2] == main + ".json"@,
        main_guesses(Some(main))[3] == main + ".node"@,
        main_guesses(Some(main))[4] == main + "/index.js"@,
        main_guesses(Some(main))[5] == main + "/index.json"@,
        main_guesses(Some(main))[6] == main + "/index.node"@,
        main_guesses(Some(main)).skip(7) == main_guesses(None),
        main_guesses(None) == seq!["index.js"@, "index.json"@, "index.node"@],
{
    assert(main_guesses(Some(main)).skip(7) =~= main_guesses(None));
}

proof fn lemma_extension(path: Seq<char>, i: int)
    requires
        0 <= i,
    ensures
        extension_from(path, i) matches Some(e) ==> has_suffix(path, e) && exists|j: int|
            0 <= j < 6 && e == (#[trigger] EXTENSIONS@[j])@,
        extension_from(path, i) is None ==> forall|j: int|
            i <= j < 6 ==> !has_suffix(path, (#[trigger] EXTENSIONS@[j])@),
    decreases 6 - i,
{
    if i < 6 {
        lemma_extension(path, i + 1);
        if has_suffix(path, EXTENSIONS@[i]@) {
            assert(EXTENSIONS@[i]@ == extension_from(path, i)->0);
        }
    }
}

/// A module is looked for as it is written, and then with each extension of code files behind its
/// stem, which is the path without such an extension, if it has one.
pub proof fn modules_are_tried_with_extensions(path: Seq<char>)
    ensures
        ({
            let stem = without_extension(path);
            &&& possible_paths(path) == seq![
                path,
                stem + ".js"@,
                stem + ".ts"@,
                stem + ".tsx"@,
                stem + ".jsx"@,
                stem + ".mjs"@,
                stem + ".cjs"@,
            ]
            &&& stem == path || (exists|j: int|
                0 <= j < 6 && path == stem + (#[trigger] EXTENSIONS@[j])@)
            &&& stem == path ==> forall|j: int|
                0 <= j < 6 ==> !has_suffix(path, (#[trigger] EXTENSIONS@[j])@)
        }),
{
    let stem = without_extension(path);
    assert(possible_paths(path) =~= seq![
        path,
        stem + ".js"@,
        stem + ".ts"@,
        stem + ".tsx"@,
        stem + ".jsx"@,
        stem + ".mjs"@,
        stem + ".cjs"@,
    ]);
    lemma_extension(path, 0);
    match extension_from(path, 0) {
        Some(e) => {
            let j = choose|j: int| 0 <= j < 6 && e == (#[trigger] EXTENSIONS@[j])@;
            assert(path =~= stem + e);
            reveal_strlit(".js");
            reveal_strlit(".ts");
            reveal_strlit(".tsx");
            reveal_strlit(".jsx");
            reveal_strlit(".mjs");
            reveal_strlit(".cjs");
            assert(j == 0 || j == 1 || j == 2 || j == 3 || j == 4 || j == 5);
            assert(e.len() > 0);
            assert(stem.len() < path.len());
            assert(path == stem + EXTENSIONS@[j]@);
        },
        None => {},
    }
}

/// The code of a hexadecimal digit.
pub open spec fn hex_digit(d: nat, capital: bool) -> u8 {
    if d < 10 {
        (48 + d) as u8
    } else if capital {
        (55 + d) as u8
    } else {
        (87 + d) as u8
    }
}

/// Bytes with every one of them escaped: a percent sign and two hexadecimal digits.
pub open spec fn escaped(b: Seq<u8>, capital: bool) -> Seq<u8>
    decreases b.len(),
{
    if b.len() == 0 {
        Seq::empty()
    } else {
        seq![37u8, hex_digit((b[0] / 16) as nat, capital), hex_digit((b[0] % 16) as nat, capital)]
            + escaped(b.skip(1), capital)
    }
}

proof fn lemma_hex(d: nat, capital: bool)
    requires
        d < 16,
    ensures
        hex_value(hex_digit(d, capital) as char) == Some(d as u32),
{
}

proof fn lemma_decoded_behind(front: Seq<u8>, b: Seq<u8>, i: int)
    requires
        0 <= i <= b.len(),
    ensures
        decoded_from(front + b, front.len() + i) == decoded_from(b, i),
    decreases b.len() - i,
{
    let s = front + b;
    let n = front.len() as int;
    if i < b.len() {
        assert(s[n + i] == b[i]);
        if i + 2 < b.len() {
            assert(s[n + i + 1] == b[i + 1] && s[n + i + 2] == b[i + 2]);
            lemma_decoded_behind(front, b, i + 3);
        }
        lemma_decoded_behind(front, b, i + 1);
    }
}

/// Escapes stand for the bytes that they spell, whatever follows, and in either spelling.
pub proof fn escapes_are_undone(b: Seq<u8>, rest: Seq<u8>, capital: bool)
    ensures
        decoded_from(escaped(b, capital) + rest, 0) == (match decoded_from(rest, 0) {
            Some(r) => Some(b + r),
            None => None,
        }),
    decreases b.len(),
{
    if b.len() == 0 {
        assert(escaped(b, capital) + rest =~= rest);
        match decoded_from(rest, 0) {
            Some(r) => {
                assert(b + r =~= r);
            },
            None => {},
        }
    } else {
        let x = hex_digit((b[0] / 16) as nat, capital);
        let y = hex_digit((b[0] % 16) as nat, capital);
        let front = seq![37u8, x, y];
        let behind = escaped(b.skip(1), capital) + rest;
        let s = escaped(b, capital) + rest;
        assert(s =~= front + behind);
        lemma_hex((b[0] / 16) as nat, capital);
        lemma_hex((b[0] % 16) as nat, capital);
        escapes_are_undone(b.skip(1), rest, capital);
        lemma_decoded_behind(front, behind, 0);
        assert(s[0] == 37 && s[1] == x && s[2] == y);
        assert((b[0] / 16) as u32 * 16 + (b[0] % 16) as u32 == b[0]);
        match decoded_from(rest, 0) {
            Some(r) => {
                assert(seq![b[0]] + (b.skip(1) + r) =~= b + r);
            },
            None => {},
        }
    }
}

} // verus!
