//! Names in camel case to names with dashes, and names that are safe in classes.

use crate::text::{
    all_ascii, alnum, ascii_lower, chars_of, has_prefix, is_alnum, lowercase, lowercase_text,
    starts_with,
};
use vstd::prelude::*;

verus! {

/// Whether a dash goes before the character at `i`: a capital that begins the text
/// or follows a small letter.
pub open spec fn dash_before(s: Seq<char>, i: int) -> bool {
    ('A' <= s[i] <= 'Z') && (i == 0 || ('a' <= s[i - 1] <= 'z'))
}

/// The first `k` characters with their dashes.
pub open spec fn dashed_upto(s: Seq<char>, k: int) -> Seq<char>
    decreases k,
{
    if k <= 0 {
        Seq::empty()
    } else if dash_before(s, k - 1) {
        dashed_upto(s, k - 1).push('-').push(s[k - 1])
    } else {
        dashed_upto(s, k - 1).push(s[k - 1])
    }
}

/// The text with a dash before each capital that begins a part.
pub open spec fn with_dashes(s: Seq<char>) -> Seq<char> {
    dashed_upto(s, s.len() as int)
}

/// A name in camel case as a name with dashes.
pub open spec fn dashify_text(s: Seq<char>) -> Seq<char> {
    lowercase_text(with_dashes(s))
}

/// Turns a name in camel case into a name with dashes.
pub fn dashify(s: &str) -> (r: String)
    ensures
        r@ == dashify_text(s@),
        all_ascii(s@) ==> r@ == ascii_lower(with_dashes(s@)),
{
    let chars = chars_of(s);
    let mut out = String::new();
    let mut i: usize = 0;
    while i < chars.len()
        invariant
            i <= chars@.len(),
            chars@ == s@,
            out@ == dashed_upto(s@, i as int),
            all_ascii(s@) ==> all_ascii(out@),
        decreases chars@.len() - i,
    {
        let c = chars[i];
        let ghost before = out@;
        proof {
            if all_ascii(s@) {
                assert((s@[i as int] as u32) < 128);
            }
        }
        if 'A' <= c && c <= 'Z' && (i == 0 || ('a' <= chars[i - 1] && chars[i - 1] <= 'z')) {
            out.push('-');
        }
        out.push(c);
        proof {
            if all_ascii(s@) {
                assert forall|j: int| 0 <= j < out@.len() implies (#[trigger] out@[j] as u32)
                    < 128 by {
                    if j < before.len() {
                        assert((before[j] as u32) < 128);
                    }
                }
            }
        }
        i += 1;
    }
    lowercase(out.as_str())
}

/// The name of a property in a rule: custom properties keep their spelling.
pub open spec fn dashed_key_text(key: Seq<char>) -> Seq<char> {
    if has_prefix(key, "--"@) {
        key
    } else {
        dashify_text(key)
    }
}

/// The name of a property in a rule: custom properties keep their spelling.
pub fn dashed_key(key: &str) -> (r: String)
    ensures
        r@ == dashed_key_text(key@),
{
    if starts_with(key, "--") {
        key.to_owned()
    } else {
        dashify(key)
    }
}

/// Whether a character may stand in the name of a class.
pub open spec fn class_char(c: char) -> bool {
    alnum(c) || c == '.' || c == '_' || c == '-'
}

/// The text without the characters that may not stand in the name of a class.
pub open spec fn sanitized(s: Seq<char>) -> Seq<char> {
    s.filter(|c: char| class_char(c))
}

/// Drops the characters that may not stand in the name of a class.
pub fn sanitize_dev_class_name(class_name: &str) -> (r: String)
    ensures
        r@ == sanitized(class_name@),
{
    let chars = chars_of(class_name);
    let mut out = String::new();
    let mut i: usize = 0;
    proof {
        reveal(Seq::filter);
        assert(chars@.take(0) =~= Seq::<char>::empty());
    }
    while i < chars.len()
        invariant
            i <= chars@.len(),
            out@ == sanitized(chars@.take(i as int)),
        decreases chars@.len() - i,
    {
        let c = chars[i];
        proof {
            reveal(Seq::filter);
            assert(chars@.take(i as int + 1).drop_last() =~= chars@.take(i as int));
        }
        if is_alnum(c) || c == '.' || c == '_' || c == '-' {
            out.push(c);
        }
        i += 1;
    }
    proof {
        assert(chars@.take(chars@.len() as int) =~= chars@);
    }
    out
}

} // verus!
