//! One file's record: its path and the content of each of its streams.
use vstd::prelude::*;

use crate::decode::strings_view;

verus! {

/// Pairs of name and content, as text.
pub open spec fn pairs_view(v: Seq<(String, String)>) -> Seq<(Seq<char>, Seq<char>)> {
    v.map_values(|p: (String, String)| (p.0@, p.1@))
}

/// The names of a sequence of pairs.
pub open spec fn keys_of(v: Seq<(Seq<char>, Seq<char>)>) -> Seq<Seq<char>> {
    v.map_values(|p: (Seq<char>, Seq<char>)| p.0)
}

/// A file and its alternate data streams, each name given once.
#[derive(Debug)]
pub struct FileData {
    filepath: String,
    ads: Vec<(String, String)>,
}

impl FileData {
    pub closed spec fn spec_path(&self) -> Seq<char> {
        self.filepath@
    }

    /// The streams in the order they were read: name and content.
    pub closed spec fn spec_streams(&self) -> Seq<(Seq<char>, Seq<char>)> {
        pairs_view(self.ads@)
    }

    /// The stream names of the record.
    pub open spec fn spec_keys(&self) -> Seq<Seq<char>> {
        keys_of(self.spec_streams())
    }

    /// Makes the record of `filepath` from stream names and their contents,
    /// taken pairwise.
    pub fn new(filepath: String, names: &Vec<String>, contents: &Vec<String>) -> (r: FileData)
        requires
            names@.len() == contents@.len(),
        ensures
            r.spec_path() == filepath@,
            r.spec_streams().len() == names@.len(),
            forall|i: int|
                0 <= i < names@.len() ==> #[trigger] r.spec_streams()[i] == (
                    names@[i]@,
                    contents@[i]@,
                ),
    {
        let mut ads: Vec<(String, String)> = Vec::new();
        let mut i: usize = 0;
        while i < names.len()
            invariant
                names@.len() == contents@.len(),
                i <= names@.len(),
                ads@.len() == i,
                forall|j: int|
                    0 <= j < i ==> #[trigger] pairs_view(ads@)[j] == (names@[j]@, contents@[j]@),
            decreases names@.len() - i,
        {
            let ghost before = ads@;
            ads.push((names[i].clone(), contents[i].clone()));
            assert(pairs_view(ads@) =~= pairs_view(before).push((names@[i as int]@, contents@[i as int]@)));
            i = i + 1;
        }
        FileData { filepath, ads }
    }

    pub fn filepath(&self) -> (r: &String)
        ensures
            r@ == self.spec_path(),
    {
        &self.filepath
    }

    /// The stream names, in the order they were read.
    pub fn stream_names(&self) -> (r: Vec<String>)
        ensures
            strings_view(r@) == self.spec_keys(),
    {
        let mut out: Vec<String> = Vec::new();
        let mut i: usize = 0;
        while i < self.ads.len()
            invariant
                i <= self.ads@.len(),
                strings_view(out@) == self.spec_keys().take(i as int),
            decreases self.ads@.len() - i,
        {
            let ghost before = out@;
            out.push(self.ads[i].0.clone());
            assert(strings_view(out@) =~= self.spec_keys().take(i as int + 1)) by {
                assert(strings_view(out@) =~= strings_view(before).push(self.ads@[i as int].0@));
            }
            i = i + 1;
        }
        assert(self.spec_keys().take(self.ads@.len() as int) =~= self.spec_keys());
        out
    }

    /// The content of the stream called `name`, where the record has one.
    pub fn content(&self, name: &String) -> (r: Option<String>)
        ensures
            r is None <==> !self.spec_keys().contains(name@),
            r matches Some(c) ==> exists|i: int|
                0 <= i < self.spec_streams().len() && #[trigger] self.spec_streams()[i] == (
                    name@,
                    c@,
                ),
    {
        let mut i: usize = 0;
        while i < self.ads.len()
            invariant
                i <= self.ads@.len(),
                forall|j: int| 0 <= j < i ==> #[trigger] self.spec_keys()[j] != name@,
            decreases self.ads@.len() - i,
        {
            if self.ads[i].0 == *name {
                let c = self.ads[i].1.clone();
                assert(self.spec_streams()[i as int] == (name@, c@));
                assert(self.spec_keys()[i as int] == name@);
                return Some(c);
            }
            assert(self.spec_keys()[i as int] == self.ads@[i as int].0@);
            i = i + 1;
        }
        None
    }

    /// The number of streams in the record.
    pub fn stream_count(&self) -> (r: usize)
        ensures
            r == self.spec_streams().len(),
    {
        self.ads.len()
    }
}

} // verus!
