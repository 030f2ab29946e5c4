//! Bookmarks of a log source: a name per bookmarked line.

use std::collections::HashMap;
use vstd::prelude::*;

verus! {

/// A bookmark on a line of a source.
pub struct Bookmark {
    /// Line index within the source (not a store-wide id)
    pub line_index: usize,
    pub name: String,
}

impl Bookmark {
    /// The bookmark as plain values.
    pub open spec fn view_pair(&self) -> (usize, Seq<char>) {
        (self.line_index, self.name@)
    }

    /// A copy of the bookmark.
    pub fn duplicate(&self) -> (r: Bookmark)
        ensures
            r.view_pair() == self.view_pair(),
    {
        Bookmark { line_index: self.line_index, name: self.name.clone() }
    }
}

/// The bookmarks of one source, by line index.
pub struct SourceBookmarks {
    bookmarks: HashMap<usize, Bookmark>,
}

impl SourceBookmarks {
    /// The bookmarks by line index.
    pub closed spec fn entries(&self) -> Map<usize, (usize, Seq<char>)> {
        self.bookmarks@.map_values(|b: Bookmark| b.view_pair())
    }

    /// No bookmarks.
    pub fn new() -> (r: Self)
        ensures
            r.entries() == Map::<usize, (usize, Seq<char>)>::empty(),
    {
        let r = SourceBookmarks { bookmarks: HashMap::new() };
        assert(r.entries() =~= Map::<usize, (usize, Seq<char>)>::empty());
        r
    }

    /// Bookmarks line `line_index` under `name`, replacing a bookmark it
    /// had.
    pub fn set_bookmark(&mut self, line_index: usize, name: String)
        ensures
            final(self).entries() == old(self).entries().insert(line_index, (line_index, name@)),
    {
        broadcast use vstd::std_specs::hash::group_hash_axioms;
        let b = Bookmark { line_index, name };
        self.bookmarks.insert(line_index, b);
        assert(self.entries() =~= old(self).entries().insert(line_index, (line_index, name@)));
    }

    /// Removes the bookmark of line `line_index`, returning it.
    pub fn remove_bookmark(&mut self, line_index: usize) -> (r: Option<Bookmark>)
        ensures
            final(self).entries() == old(self).entries().remove(line_index),
            match r {
                Some(b) => old(self).entries().contains_key(line_index) && b.view_pair() == old(
                    self,
                ).entries()[line_index],
                None => !old(self).entries().contains_key(line_index),
            },
    {
        broadcast use vstd::std_specs::hash::group_hash_axioms;
        let r = self.bookmarks.remove(&line_index);
        assert(self.entries() =~= old(self).entries().remove(line_index));
        r
    }

    /// Whether line `line_index` has a bookmark.
    pub fn has_bookmark(&self, line_index: usize) -> (r: bool)
        ensures
            r == self.entries().contains_key(line_index),
    {
        broadcast use vstd::std_specs::hash::group_hash_axioms;
        self.bookmarks.contains_key(&line_index)
    }

    /// The bookmark of line `line_index`, if it has one.
    pub fn get_bookmark(&self, line_index: usize) -> (r: Option<Bookmark>)
        ensures
            match r {
                Some(b) => self.entries().contains_key(line_index) && b.view_pair() == self.entries()[line_index],
                None => !self.entries().contains_key(line_index),
            },
    {
        broadcast use vstd::std_specs::hash::group_hash_axioms;
        match self.bookmarks.get(&line_index) {
            Some(b) => Some(b.duplicate()),
            None => None,
        }
    }

    /// All bookmarks of the source, each once, in no particular order.
    pub fn get_bookmarks(&self) -> (r: Vec<Bookmark>)
        ensures
            r@.len() == self.entries().dom().len(),
            forall|i: int| 0 <= i < r@.len() ==> self.entries().values().contains(#[trigger] r@[i].view_pair()),
            forall|v: (usize, Seq<char>)| #[trigger] self.entries().values().contains(v) ==> exists|i: int|
                0 <= i < r@.len() && r@[i].view_pair() == v,
    {
        broadcast use vstd::std_specs::hash::group_hash_axioms;
        broadcast use vstd::std_specs::hash::axiom_spec_values_iter;
        let mut out: Vec<Bookmark> = Vec::new();
        assert(self.entries().dom() =~= self.bookmarks@.dom());
        let ghost seqv = vstd::std_specs::iter::IteratorSpec::remaining(&vstd::std_specs::hash::spec_values_iter(&self.bookmarks));
        for b in it: self.bookmarks.values()
            invariant
                it.seq() == seqv,
                out@.len() == it.index(),
                forall|i: int| 0 <= i < out@.len() ==> (#[trigger] out@[i]).view_pair() == seqv[i].view_pair(),
        {
            out.push(b.duplicate());
        }
        assert(out@.len() == seqv.len());
        proof {
            let vals = seqv.map_values(|b: &Bookmark| *b);
            assert(vals =~= seqv.unref());
            assert(vals.to_set() == self.bookmarks@.values());
            assert forall|i: int| 0 <= i < out@.len() implies self.entries().values().contains(
                #[trigger] out@[i].view_pair(),
            ) by {
                assert(vals.to_set().contains(vals[i]));
                let k = choose|k: usize| self.bookmarks@.contains_key(k) && self.bookmarks@[k] == vals[i];
                assert(self.entries()[k] == out@[i].view_pair());
            }
            assert forall|v: (usize, Seq<char>)| #[trigger] self.entries().values().contains(v) implies exists|i: int|
                0 <= i < out@.len() && out@[i].view_pair() == v by {
                let k = choose|k: usize| self.entries().contains_key(k) && self.entries()[k] == v;
                assert(self.bookmarks@.values().contains(self.bookmarks@[k]));
                assert(vals.to_set().contains(self.bookmarks@[k]));
                let i = choose|i: int| 0 <= i < vals.len() && vals[i] == self.bookmarks@[k];
                assert(out@[i].view_pair() == v);
            }
        }
        out
    }
}

} // verus!
