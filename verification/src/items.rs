//! A small named-item store with case-insensitive search.
//!
//! Items are kept under unique names, in insertion order. Searching folds
//! both the query and the stored names through trimming and lowercasing —
//! those two foldings are the standard library's, taken on trust under the
//! names `trim_of` and `lower_of` — and the substring matching over the
//! folded text is verified exactly. Reading the store from disk and writing
//! it back is the embedding program's file work.

use vstd::prelude::*;
use vstd::string::{StringExecFns, StrSliceExecFns};

verus! {

/// What `str::to_lowercase` returns: a function of the characters alone.
pub uninterp spec fn lower_of(s: Seq<char>) -> Seq<char>;

/// What `str::trim` returns: a function of the characters alone.
pub uninterp spec fn trim_of(s: Seq<char>) -> Seq<char>;

/// Relies on `str::to_lowercase`: the Unicode lowercase form of the text,
/// depending on the characters alone.
#[verifier::external_body]
fn lowercase(s: &str) -> (r: String)
    ensures
        r@ == lower_of(s@),
{
    s.to_lowercase()
}

/// Relies on `str::trim`: the text without leading and trailing whitespace,
/// depending on the characters alone.
#[verifier::external_body]
fn trim(s: &str) -> (r: &str)
    ensures
        r@ == trim_of(s@),
{
    s.trim()
}

/// Whether `needle` occurs at position `i` of `hay`.
pub open spec fn match_at(hay: Seq<char>, needle: Seq<char>, i: int) -> bool {
    0 <= i && i + needle.len() <= hay.len() && hay.subrange(i, i + needle.len()) == needle
}

/// Whether `needle` occurs anywhere in `hay`.
pub open spec fn contains_sub(hay: Seq<char>, needle: Seq<char>) -> bool {
    exists|i: int| match_at(hay, needle, i)
}

/// Substring search, verified both ways: true exactly when the needle
/// occurs in the haystack.
pub fn contains_chars(hay: &str, needle: &str) -> (r: bool)
    ensures
        r == contains_sub(hay@, needle@),
{
    let h: usize = hay.unicode_len();
    let n: usize = needle.unicode_len();
    if n > h {
        proof {
            if contains_sub(hay@, needle@) {
                let i = choose|i: int| match_at(hay@, needle@, i);
                assert(false);
            }
        }
        return false;
    }
    let mut i: usize = 0;
    while i <= h - n
        invariant
            n <= h == hay@.len(),
            n == needle@.len(),
            i <= h - n + 1,
            forall|k: int| 0 <= k < i ==> !match_at(hay@, needle@, k),
        decreases h - n - i + 1,
    {
        let mut j: usize = 0;
        let mut all_equal: bool = true;
        while j < n
            invariant
                n <= h == hay@.len(),
                n == needle@.len(),
                i <= h - n,
                j <= n,
                all_equal <==> forall|k: int| 0 <= k < j ==> hay@[i + k] == needle@[k],
            decreases n - j,
        {
            if hay.get_char(i + j) != needle.get_char(j) {
                proof {
                    assert(hay@[i + j] != needle@[j as int]);
                }
                all_equal = false;
                j = n;
            } else {
                proof {
                    assert(hay@[i + j] == needle@[j as int]);
                }
                j = j + 1;
            }
        }
        if all_equal {
            proof {
                assert(hay@.subrange(i as int, i + needle@.len()) =~= needle@);
                assert(match_at(hay@, needle@, i as int));
            }
            return true;
        }
        proof {
            if match_at(hay@, needle@, i as int) {
                assert(forall|k: int|
                    0 <= k < n ==> hay@[i + k] == #[trigger] needle@[k]) by {
                    assert forall|k: int| 0 <= k < n implies hay@[i + k] == needle@[k] by {
                        assert(needle@[k] == hay@.subrange(i as int, i + needle@.len())[k]);
                    }
                }
                assert(false);
            }
        }
        i = i + 1;
    }
    proof {
        if contains_sub(hay@, needle@) {
            let k = choose|k: int| match_at(hay@, needle@, k);
            assert(false);
        }
    }
    false
}

/// One stored item: its text content.
#[derive(Debug, PartialEq)]
pub struct Item {
    pub content: String,
}

impl Clone for Item {
    /// An exact copy.
    fn clone(&self) -> (r: Item)
        ensures
            r == *self,
    {
        Item { content: self.content.clone() }
    }
}

impl Item {
    /// An item with this content.
    pub fn new(content: String) -> (r: Item)
        ensures
            r.content@ == content@,
    {
        Item { content }
    }
}

/// Whether the store holds this key.
pub open spec fn has_key(s: Seq<(String, Item)>, key: Seq<char>) -> bool {
    exists|i: int| 0 <= i < s.len() && (#[trigger] s[i]).0@ == key
}

/// Whether one stored entry answers a folded query: the query occurs in the
/// entry's folded name.
pub open spec fn answers_query(p: (String, Item), q: Seq<char>) -> bool {
    contains_sub(lower_of(trim_of(p.0@)), q)
}

/// Named items under unique names, in insertion order.
#[derive(Debug)]
pub struct Items {
    items: Vec<(String, Item)>,
}

impl View for Items {
    type V = Seq<(String, Item)>;

    closed spec fn view(&self) -> Seq<(String, Item)> {
        self.items@
    }
}

impl Items {
    /// Names are unique.
    pub open spec fn wf(&self) -> bool {
        forall|i: int, j: int|
            0 <= i < j < self@.len() ==> (#[trigger] self@[i]).0@ != (#[trigger] self@[j]).0@
    }

    /// An empty store.
    pub fn new() -> (r: Items)
        ensures
            r@ == Seq::<(String, Item)>::empty(),
            r.wf(),
    {
        let items: Vec<(String, Item)> = Vec::new();
        proof {
            assert(items@ =~= Seq::<(String, Item)>::empty());
        }
        Items { items }
    }

    /// The stored entries, in insertion order.
    pub fn list(&self) -> (r: &Vec<(String, Item)>)
        ensures
            r@ == self@,
    {
        &self.items
    }

    /// The index of a name, when it is stored.
    fn position(&self, name: &String) -> (r: Option<usize>)
        ensures
            match r {
                Some(i) => i < self@.len() && self@[i as int].0@ == name@,
                None => !has_key(self@, name@),
            },
    {
        let mut i: usize = 0;
        while i < self.items.len()
            invariant
                i <= self@.len(),
                forall|k: int| 0 <= k < i ==> (#[trigger] self@[k]).0@ != name@,
            decreases self@.len() - i,
        {
            if self.items[i].0.eq(name) {
                return Some(i);
            }
            i = i + 1;
        }
        None
    }

    /// Store `content` under `name`. When the name was taken, its content
    /// is replaced and the previous item is returned; a fresh name is
    /// appended at the end.
    pub fn add(&mut self, name: String, content: String) -> (r: Option<Item>)
        requires
            old(self).wf(),
        ensures
            final(self).wf(),
            r is Some <==> has_key(old(self)@, name@),
            r matches Some(previous) ==> exists|i: int|
                0 <= i < old(self)@.len() && (#[trigger] old(self)@[i]).0@ == name@ && previous
                    == old(self)@[i].1 && final(self)@ == old(self)@.update(
                    i,
                    (old(self)@[i].0, (Item { content })),
                ),
            r is None ==> final(self)@ == old(self)@.push((name, Item { content })),
    {
        match self.position(&name) {
            Some(i) => {
                let entry = &mut self.items[i];
                let previous = entry.1.clone();
                entry.1 = Item { content };
                Some(previous)
            },
            None => {
                self.items.push((name, Item { content }));
                proof {
                    assert forall|a: int, b: int|
                        0 <= a < b < self@.len() implies (#[trigger] self@[a]).0@ != (
                    #[trigger] self@[b]).0@ by {
                        if b == self@.len() - 1 {
                            assert(!has_key(old(self)@, self@[b].0@));
                        }
                    }
                }
                None
            },
        }
    }

    /// Replace the content stored under `name`, reporting whether the name
    /// was found; an unknown name changes nothing.
    pub fn edit(&mut self, name: &str, content: String) -> (r: bool)
        requires
            old(self).wf(),
        ensures
            final(self).wf(),
            r <==> has_key(old(self)@, name@),
            r ==> exists|i: int|
                0 <= i < old(self)@.len() && (#[trigger] old(self)@[i]).0@ == name@
                    && final(self)@ == old(self)@.update(
                    i,
                    (old(self)@[i].0, (Item { content })),
                ),
            !r ==> final(self)@ == old(self)@,
    {
        let key = name.to_owned();
        match self.position(&key) {
            Some(i) => {
                let entry = &mut self.items[i];
                entry.1 = Item { content };
                true
            },
            None => false,
        }
    }

    /// Remove and return the item stored under `name`; an unknown name
    /// changes nothing.
    pub fn remove(&mut self, name: &str) -> (r: Option<Item>)
        requires
            old(self).wf(),
        ensures
            final(self).wf(),
            r is Some <==> has_key(old(self)@, name@),
            r matches Some(removed) ==> exists|i: int|
                0 <= i < old(self)@.len() && (#[trigger] old(self)@[i]).0@ == name@ && removed
                    == old(self)@[i].1 && final(self)@ == old(self)@.remove(i),
            r is None ==> final(self)@ == old(self)@,
    {
        let key = name.to_owned();
        match self.position(&key) {
            Some(i) => {
                let (_, removed) = self.items.remove(i);
                proof {
                    assert forall|a: int, b: int|
                        0 <= a < b < self@.len() implies (#[trigger] self@[a]).0@ != (
                    #[trigger] self@[b]).0@ by {
                        assert(self@ == old(self)@.remove(i as int));
                        if a < i {
                            assert(self@[a] == old(self)@[a]);
                        } else {
                            assert(self@[a] == old(self)@[a + 1]);
                        }
                        if b < i {
                            assert(self@[b] == old(self)@[b]);
                        } else {
                            assert(self@[b] == old(self)@[b + 1]);
                        }
                    }
                }
                Some(removed)
            },
            None => None,
        }
    }

    /// Every entry whose trimmed, lowercased name contains the trimmed,
    /// lowercased query, in store order.
    pub fn find(&self, name: &str) -> (r: Vec<(String, Item)>)
        ensures
            r@ == self@.filter(
                (|p: (String, Item)| answers_query(p, lower_of(trim_of(name@)))),
            ),
    {
        let needle = lowercase(trim(name));
        let ghost q = lower_of(trim_of(name@));
        let ghost pred = (|p: (String, Item)| answers_query(p, q));
        let mut out: Vec<(String, Item)> = Vec::new();
        let mut i: usize = 0;
        proof {
            reveal(Seq::filter);
            assert(self@.take(0) =~= Seq::<(String, Item)>::empty());
            assert(out@ =~= self@.take(0).filter(pred));
        }
        while i < self.items.len()
            invariant
                i <= self@.len(),
                needle@ == q,
                pred == (|p: (String, Item)| answers_query(p, q)),
                out@ == self@.take(i as int).filter(pred),
            decreases self@.len() - i,
        {
            let entry = &self.items[i];
            let folded = lowercase(trim(entry.0.as_str()));
            let matched = contains_chars(folded.as_str(), needle.as_str());
            if matched {
                out.push((entry.0.clone(), entry.1.clone()));
            }
            proof {
                reveal(Seq::filter);
                let taken = self@.take(i + 1);
                assert(taken.drop_last() =~= self@.take(i as int));
                assert(taken.last() == self@[i as int]);
                assert(matched == pred(self@[i as int]));
                if matched {
                    assert(out@ =~= self@.take(i as int).filter(pred).push(self@[i as int]));
                    assert(taken.filter(pred) == taken.drop_last().filter(pred).push(
                        taken.last()));
                } else {
                    assert(taken.filter(pred) == taken.drop_last().filter(pred));
                }
            }
            i = i + 1;
        }
        proof {
            assert(self@.take(self@.len() as int) =~= self@);
        }
        out
    }
}

} // verus!
