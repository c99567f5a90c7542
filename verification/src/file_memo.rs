//! What is remembered of files: values with the stamps under which they were read, and
//! the hashes of contents.

use crate::text::str_eq;
use crate::value::opt_text;
use vstd::prelude::*;

verus! {

/// The hash of contents, as BLAKE3 gives it, in lower-case hexadecimal digits.
pub uninterp spec fn blake3_hex(bytes: Seq<u8>) -> Seq<char>;

/// `blake3::hash`, printed by `blake3::Hash::to_hex`. The result is named: it is a
/// function of the bytes alone.
#[verifier::external_body]
fn blake3_of(bytes: &[u8]) -> (r: String)
    ensures
        r@ == blake3_hex(bytes@),
{
    blake3::hash(bytes).to_hex().to_string()
}

/// What the contents of a file are hashed to; a file that cannot be read has no hash.
pub open spec fn contents_hash(contents: Option<Seq<u8>>) -> Option<Seq<char>> {
    match contents {
        Some(bytes) => Some(blake3_hex(bytes)),
        None => None,
    }
}

/// Gives the hash of a file by its contents, if it can be read.
pub fn hash_file(contents: Option<&Vec<u8>>) -> (r: Option<String>)
    ensures
        opt_text(r) == contents_hash(
            match contents {
                Some(v) => Some(v@),
                None => None,
            },
        ),
{
    match contents {
        Some(v) => Some(blake3_of(v.as_slice())),
        None => None,
    }
}

/// When a file was changed, in seconds and nanoseconds if that is known, and how long
/// it is.
#[derive(Debug, Clone, Copy, PartialEq, Eq)]
pub struct Stamp {
    pub modified: Option<(u64, u32)>,
    pub len: u64,
}

/// Whether two stamps are the same.
pub fn same_stamp(a: Option<Stamp>, b: Option<Stamp>) -> (r: bool)
    ensures
        r == (a == b),
{
    match (a, b) {
        (None, None) => true,
        (Some(x), Some(y)) => x.len == y.len && match (x.modified, y.modified) {
            (None, None) => true,
            (Some(s), Some(t)) => s.0 == t.0 && s.1 == t.1,
            _ => false,
        },
        _ => false,
    }
}

/// Values by the paths of files, with the stamps under which they were read. A live
/// memory answers only while the stamp is the same; a snapshot always does.
#[derive(Debug, PartialEq)]
pub struct Stamped<T> {
    pub live: bool,
    pub entries: Vec<(String, Option<Stamp>, T)>,
}

/// The first place, from `i` on, where a path is remembered, or the length.
pub open spec fn place_of<T>(e: Seq<(String, Option<Stamp>, T)>, path: Seq<char>, i: int) -> int
    decreases e.len() - i,
{
    if i < 0 || i >= e.len() {
        e.len() as int
    } else if e[i].0@ == path {
        i
    } else {
        place_of(e, path, i + 1)
    }
}

proof fn lemma_place<T>(e: Seq<(String, Option<Stamp>, T)>, path: Seq<char>, i: int)
    requires
        0 <= i <= e.len(),
    ensures
        i <= place_of(e, path, i) <= e.len(),
        place_of(e, path, i) < e.len() ==> e[place_of(e, path, i)].0@ == path,
        forall|j: int| i <= j < place_of(e, path, i) ==> (#[trigger] e[j]).0@ != path,
    decreases e.len() - i,
{
    if i < e.len() && e[i].0@ != path {
        lemma_place(e, path, i + 1);
    }
}

impl<T> Stamped<T> {
    /// What is remembered of a file that has the given stamp now.
    pub open spec fn recalled(self, path: Seq<char>, stamp: Option<Stamp>) -> Option<T> {
        let at = place_of(self.entries@, path, 0);
        if at < self.entries@.len() && (!self.live || self.entries@[at].1 == stamp) {
            Some(self.entries@[at].2)
        } else {
            None
        }
    }

    /// A memory of nothing.
    pub fn new(live: bool) -> (r: Stamped<T>)
        ensures
            r.live == live,
            r.entries@.len() == 0,
    {
        Stamped { live, entries: Vec::new() }
    }

    fn find(&self, path: &str) -> (r: usize)
        ensures
            r == place_of(self.entries@, path@, 0),
    {
        let mut i: usize = 0;
        while i < self.entries.len()
            invariant
                i <= self.entries@.len(),
                place_of(self.entries@, path@, 0) == place_of(self.entries@, path@, i as int),
            decreases self.entries@.len() - i,
        {
            if str_eq(self.entries[i].0.as_str(), path) {
                return i;
            }
            i += 1;
        }
        i
    }

    /// Gives what is remembered of a file that has the given stamp now.
    pub fn recall(&self, path: &str, stamp: Option<Stamp>) -> (r: Option<&T>)
        ensures
            r is Some == self.recalled(path@, stamp) is Some,
            r is Some ==> *r->0 == self.recalled(path@, stamp)->0,
    {
        let at: usize = self.find(path);
        if at < self.entries.len() && (!self.live || same_stamp(self.entries[at].1, stamp)) {
            Some(&self.entries[at].2)
        } else {
            None
        }
    }

    /// Remembers a value in place of what was remembered of the file.
    pub fn learn(&mut self, path: &str, stamp: Option<Stamp>, value: T)
        ensures
            final(self).live == old(self).live,
            final(self).recalled(path@, stamp) == Some(value),
            forall|p: Seq<char>, s: Option<Stamp>|
                p != path@ ==> #[trigger] final(self).recalled(p, s) == old(self).recalled(p, s),
    {
        let at: usize = self.find(path);
        let ghost before = self.entries@;
        let entry = (path.to_owned(), stamp, value);
        proof {
            lemma_place(before, path@, 0);
        }
        if at < self.entries.len() {
            let gone = self.entries.remove(at);
            self.entries.insert(at, entry);
            assert(self.entries@ =~= before.update(at as int, entry));
        } else {
            self.entries.push(entry);
        }
        proof {
            let now = self.entries@;
            assert(now[at as int] == entry);
            lemma_place(now, path@, 0);
            assert(place_of(now, path@, 0) == at) by {
                let p = place_of(now, path@, 0);
                if p < at {
                    assert(now[p] == before[p]);
                }
            }
            assert forall|p: Seq<char>, s: Option<Stamp>| p != path@ implies #[trigger] self.recalled(
                p,
                s,
            ) == old(self).recalled(p, s) by {
                lemma_place(before, p, 0);
                lemma_place(now, p, 0);
                let x = place_of(before, p, 0);
                let y = place_of(now, p, 0);
                if x < before.len() {
                    assert(now[x] == before[x]);
                    if y < x {
                        assert(now[y] == before[y]);
                    }
                } else if y < now.len() {
                    assert(y != at);
                    assert(now[y] == before[y]);
                }
            }
        }
    }

    /// Forgets everything.
    pub fn forget(&mut self)
        ensures
            final(self).live == old(self).live,
            final(self).entries@.len() == 0,
    {
        self.entries = Vec::new();
    }
}

/// A snapshot recalls what it has whatever the stamp is; a live memory recalls it under
/// the stamp that it was read with and no other.
pub proof fn stamps_decide<T>(m: Stamped<T>, path: Seq<char>, a: Option<Stamp>, b: Option<Stamp>)
    requires
        m.recalled(path, a) is Some,
    ensures
        m.recalled(path, b) is Some <==> (!m.live || a == b),
        m.recalled(path, b) is Some ==> m.recalled(path, b) == m.recalled(path, a),
{
}

} // verus!
