//! The content registry: one compiled table per named collection,
//! constructed once at startup and read-only afterwards. Consumers reach
//! a collection's records only through the two table read operations.
use crate::table::get_result_of;
use crate::table::lists_metadata_of;
use crate::table::CollectionTable;
use crate::table::ContentMetadata;
use crate::table::ContentRecord;
use crate::text::str_eq;
use vstd::prelude::*;

verus! {

/// A read-only set of named collections.
pub struct ContentRegistry {
    entries: Vec<(String, CollectionTable)>,
}

impl View for ContentRegistry {
    type V = Seq<(Seq<char>, Seq<ContentRecord>)>;

    closed spec fn view(&self) -> Seq<(Seq<char>, Seq<ContentRecord>)> {
        Seq::new(self.entries@.len(), |i: int| (self.entries@[i].0@, self.entries@[i].1@))
    }
}

/// The records of the first collection named `name`, if any.
pub open spec fn collection_records(
    reg: Seq<(Seq<char>, Seq<ContentRecord>)>,
    name: Seq<char>,
) -> Option<Seq<ContentRecord>>
    decreases reg.len(),
{
    if reg.len() == 0 {
        None
    } else if reg.first().0 == name {
        Some(reg.first().1)
    } else {
        collection_records(reg.drop_first(), name)
    }
}

impl ContentRegistry {
    /// An empty registry.
    pub fn new() -> (r: ContentRegistry)
        ensures
            r@ =~= Seq::<(Seq<char>, Seq<ContentRecord>)>::empty(),
    {
        let entries: Vec<(String, CollectionTable)> = Vec::new();
        let r = ContentRegistry { entries };
        proof {
            assert(r@ =~= Seq::<(Seq<char>, Seq<ContentRecord>)>::empty());
        }
        r
    }

    /// Adds one named collection.
    pub fn add_collection(&mut self, name: String, table: CollectionTable)
        ensures
            final(self)@ =~= old(self)@.push((name@, table@)),
    {
        let ghost nv = name@;
        let ghost tv = table@;
        self.entries.push((name, table));
        proof {
            assert(final(self)@ =~= old(self)@.push((nv, tv)));
        }
    }

    /// The table of the first collection with this name, if any.
    fn table_of(&self, collection: &str) -> (r: Option<&CollectionTable>)
        ensures
            match r {
                Some(t) => collection_records(self@, collection@) == Some(t@),
                None => collection_records(self@, collection@) is None,
            },
    {
        let n = self.entries.len();
        let mut i: usize = 0;
        proof {
            assert(self@.skip(0) =~= self@);
        }
        while i < n
            invariant
                i <= n == self.entries@.len(),
                self@.len() == self.entries@.len(),
                forall|k: int|
                    0 <= k < self.entries@.len() ==> (#[trigger] self@[k]) == (
                        self.entries@[k].0@,
                        self.entries@[k].1@,
                    ),
                collection_records(self@, collection@) == collection_records(
                    self@.skip(i as int),
                    collection@,
                ),
            decreases n - i,
        {
            proof {
                assert(self@.skip(i as int).first() == self@[i as int]);
                assert(self@.skip(i as int).drop_first() =~= self@.skip(i + 1));
            }
            if str_eq(self.entries[i].0.as_str(), collection) {
                return Some(&self.entries[i].1);
            }
            i = i + 1;
        }
        None
    }

    /// Lists the metadata of a named collection, in table order; nothing
    /// if no collection has that name.
    pub fn list_metadata(&self, collection: &str) -> (r: Option<Vec<ContentMetadata>>)
        ensures
            match r {
                Some(md) => {
                    &&& collection_records(self@, collection@) is Some
                    &&& lists_metadata_of(md@, collection_records(self@, collection@)->Some_0)
                },
                None => collection_records(self@, collection@) is None,
            },
    {
        match self.table_of(collection) {
            Some(t) => Some(t.get_content_metadata_list()),
            None => None,
        }
    }

    /// Fetches one record by id from a named collection; nothing if the
    /// collection is absent, and otherwise exactly what the table's own
    /// fetch returns for that id.
    pub fn get(&self, collection: &str, id: &str) -> (r: Option<(ContentMetadata, String)>)
        ensures
            match collection_records(self@, collection@) {
                Some(recs) => get_result_of(r, recs, id@),
                None => r is None,
            },
    {
        match self.table_of(collection) {
            Some(t) => t.get_content(id),
            None => None,
        }
    }
}

} // verus!
