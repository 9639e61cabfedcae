use vstd::prelude::*;

use crate::text::{split_once, split_on, split_once_str, split_char, views};

verus! {

/// The name and value that a `name=value` piece gives, where both are
/// non-empty (a piece without `=` has an empty value).
pub open spec fn param_pair(piece: Seq<char>) -> Option<(Seq<char>, Seq<char>)> {
    let (key, rest) = split_once(piece, "="@);
    let value = match rest {
        Some(v) => v,
        None => Seq::empty(),
    };
    if key.len() > 0 && value.len() > 0 {
        Some((key, value))
    } else {
        None
    }
}

/// `m` with the pairs of `pieces` set in turn, later ones replacing earlier.
pub open spec fn add_params(m: Map<Seq<char>, Seq<char>>, pieces: Seq<Seq<char>>) -> Map<Seq<char>, Seq<char>>
    decreases pieces.len(),
{
    if pieces.len() == 0 {
        m
    } else {
        let earlier = add_params(m, pieces.drop_last());
        match param_pair(pieces.last()) {
            Some(pair) => earlier.insert(pair.0, pair.1),
            None => earlier,
        }
    }
}

/// A map from names to values, such as the query parameters or the headers
/// of a request.
pub struct ParamMap {
    entries: Vec<(String, String)>,
}

impl ParamMap {
    /// The entries as a map from name to value.
    pub closed spec fn view(&self) -> Map<Seq<char>, Seq<char>> {
        Map::new(
            |k: Seq<char>| exists|i: int| 0 <= i < self.entries@.len() && #[trigger] self.entries@[i].0@ == k,
            |k: Seq<char>| self.entries@[choose|i: int| 0 <= i < self.entries@.len() && #[trigger] self.entries@[i].0@ == k].1@,
        )
    }

    /// No name occurs twice.
    pub closed spec fn wf(&self) -> bool {
        forall|i: int, j: int|
            0 <= i < j < self.entries@.len() ==> #[trigger] self.entries@[i].0@ != #[trigger] self.entries@[j].0@
    }

    /// An empty map.
    pub fn new() -> (r: ParamMap)
        ensures
            r.wf(),
            r.view() == Map::<Seq<char>, Seq<char>>::empty(),
    {
        let r = ParamMap { entries: Vec::new() };
        assert(r.view() =~= Map::<Seq<char>, Seq<char>>::empty());
        r
    }

    /// The position of the entry named `key`, if any.
    fn position(&self, key: &str) -> (r: Option<usize>)
        requires
            self.wf(),
        ensures
            match r {
                Some(i) => i < self.entries@.len() && self.entries@[i as int].0@ == key@,
                None => forall|i: int| 0 <= i < self.entries@.len() ==> #[trigger] self.entries@[i].0@ != key@,
            },
    {
        let k = key.to_owned();
        let mut i: usize = 0;
        while i < self.entries.len()
            invariant
                k@ == key@,
                i <= self.entries@.len(),
                forall|j: int| 0 <= j < i ==> #[trigger] self.entries@[j].0@ != key@,
            decreases self.entries.len() - i,
        {
            if self.entries[i].0 == k {
                return Some(i);
            }
            i = i + 1;
        }
        None
    }

    /// Sets the value of `key` to `value`, replacing any earlier value.
    pub fn set(&mut self, key: &str, value: &str)
        requires
            old(self).wf(),
        ensures
            final(self).wf(),
            final(self).view() == old(self).view().insert(key@, value@),
    {
        let ghost old_entries = self.entries@;
        match self.position(key) {
            Some(i) => {
                let k = self.entries[i].0.clone();
                self.entries.set(i, (k, value.to_owned()));
                proof {
                    assert forall|a: int, b: int| 0 <= a < b < self.entries@.len() implies #[trigger] self.entries@[a].0@ != #[trigger] self.entries@[b].0@ by {
                        assert(self.entries@[a].0@ == old_entries[a].0@);
                        assert(self.entries@[b].0@ == old_entries[b].0@);
                    }
                    self.lemma_view_at(i as int);
                    assert forall|k2: Seq<char>| k2 != key@ implies (#[trigger] self.view().contains_key(k2)) == old(self).view().contains_key(k2) && (self.view().contains_key(k2) ==> self.view()[k2] == old(self).view()[k2]) by {
                        if old(self).view().contains_key(k2) {
                            let j = choose|j: int| 0 <= j < old_entries.len() && #[trigger] old_entries[j].0@ == k2;
                            old(self).lemma_view_at(j);
                            self.lemma_view_at(j);
                        }
                        if self.view().contains_key(k2) {
                            let j = choose|j: int| 0 <= j < self.entries@.len() && #[trigger] self.entries@[j].0@ == k2;
                            self.lemma_view_at(j);
                        }
                    }
                    assert(self.view() =~= old(self).view().insert(key@, value@));
                }
            },
            None => {
                self.entries.push((key.to_owned(), value.to_owned()));
                proof {
                    let n = old_entries.len() as int;
                    self.lemma_view_at(n);
                    assert forall|k2: Seq<char>| k2 != key@ implies (#[trigger] self.view().contains_key(k2)) == old(self).view().contains_key(k2) && (self.view().contains_key(k2) ==> self.view()[k2] == old(self).view()[k2]) by {
                        if old(self).view().contains_key(k2) {
                            let j = choose|j: int| 0 <= j < old_entries.len() && #[trigger] old_entries[j].0@ == k2;
                            old(self).lemma_view_at(j);
                            self.lemma_view_at(j);
                        }
                        if self.view().contains_key(k2) {
                            let j = choose|j: int| 0 <= j < self.entries@.len() && #[trigger] self.entries@[j].0@ == k2;
                            self.lemma_view_at(j);
                        }
                    }
                    assert(self.view() =~= old(self).view().insert(key@, value@));
                }
            },
        }
    }

    /// The value of `key`, if it has one.
    pub fn get(&self, key: &str) -> (r: Option<&String>)
        requires
            self.wf(),
        ensures
            match r {
                Some(v) => self.view().contains_key(key@) && self.view()[key@] == v@,
                None => !self.view().contains_key(key@),
            },
    {
        match self.position(key) {
            Some(i) => {
                proof {
                    self.lemma_view_at(i as int);
                }
                Some(&self.entries[i].1)
            },
            None => None,
        }
    }

    /// The entry at `i` is what the map holds for its name.
    proof fn lemma_view_at(&self, i: int)
        requires
            self.wf(),
            0 <= i < self.entries@.len(),
        ensures
            self.view().contains_key(self.entries@[i].0@),
            self.view()[self.entries@[i].0@] == self.entries@[i].1@,
    {
        let k = self.entries@[i].0@;
        assert(self.entries@[i].0@ == k);
        let j = choose|j: int| 0 <= j < self.entries@.len() && #[trigger] self.entries@[j].0@ == k;
        if j != i {
            if j < i {
                assert(self.entries@[j].0@ != self.entries@[i].0@);
            } else {
                assert(self.entries@[i].0@ != self.entries@[j].0@);
            }
        }
    }

    /// Sets the `name=value` pairs of `text`, separated by `&`, in turn;
    /// pieces with an empty name or value are skipped.
    pub fn add_pairs(&mut self, text: &str)
        requires
            old(self).wf(),
        ensures
            final(self).wf(),
            final(self).view() == add_params(old(self).view(), split_on(text@, '&')),
    {
        let pieces = split_char(text, '&');
        let ghost ps = split_on(text@, '&');
        let ghost start = self.view();
        let mut i: usize = 0;
        assert(ps.take(0) =~= Seq::<Seq<char>>::empty());
        while i < pieces.len()
            invariant
                views(pieces@) == ps,
                i <= pieces@.len(),
                self.wf(),
                self.view() == add_params(start, ps.take(i as int)),
            decreases pieces.len() - i,
        {
            let piece = &pieces[i];
            let (key, rest) = split_once_str(piece.as_str(), "=");
            let value = match rest {
                Some(v) => v,
                None => String::new(),
            };
            proof {
                assert(ps.take(i + 1).drop_last() =~= ps.take(i as int));
                assert(ps.take(i + 1).last() == piece@);
            }
            if !key.as_str().is_empty() && !value.as_str().is_empty() {
                self.set(key.as_str(), value.as_str());
            }
            i = i + 1;
        }
        assert(ps.take(i as int) =~= ps);
    }
}

} // verus!
