//! The compiled content table: an immutable sequence of records, read
//! through exactly two operations — list the lightweight metadata, or
//! fetch one full record by id. Nothing mutates a table after it is
//! built.
use crate::text::str_eq;
use vstd::prelude::*;

verus! {

/// One compiled document, in emitted form: the id and date are already
/// rendered as strings, and the body is HTML.
pub struct ContentRecord {
    pub id: String,
    pub date: String,
    pub title: String,
    pub body_html: String,
}

/// The lightweight metadata of one record, for listing views.
#[derive(Debug, Clone)]
pub struct ContentMetadata {
    pub id: String,
    pub date: String,
    pub title: String,
}

/// An immutable, ordered sequence of compiled records.
pub struct CollectionTable {
    records: Vec<ContentRecord>,
}

impl View for CollectionTable {
    type V = Seq<ContentRecord>;

    closed spec fn view(&self) -> Seq<ContentRecord> {
        self.records@
    }
}

/// `md` is the metadata projection of `recs`, in order.
pub open spec fn lists_metadata_of(md: Seq<ContentMetadata>, recs: Seq<ContentRecord>) -> bool {
    &&& md.len() == recs.len()
    &&& forall|i: int|
        0 <= i < md.len() ==> {
            &&& (#[trigger] md[i]).id@ == recs[i].id@
            &&& md[i].date@ == recs[i].date@
            &&& md[i].title@ == recs[i].title@
        }
}

/// `r` is the correct fetch-by-id result over `recs`: the first record
/// whose emitted id equals `path`, or nothing if no record matches.
pub open spec fn get_result_of(
    r: Option<(ContentMetadata, String)>,
    recs: Seq<ContentRecord>,
    path: Seq<char>,
) -> bool {
    match r {
        Some(p) => exists|i: int|
            {
                &&& 0 <= i < recs.len()
                &&& (#[trigger] recs[i]).id@ == path
                &&& forall|j: int| 0 <= j < i ==> (#[trigger] recs[j]).id@ != path
                &&& p.0.id@ == recs[i].id@
                &&& p.0.date@ == recs[i].date@
                &&& p.0.title@ == recs[i].title@
                &&& p.1@ == recs[i].body_html@
            },
        None => forall|i: int| 0 <= i < recs.len() ==> (#[trigger] recs[i]).id@ != path,
    }
}

/// One rendered source line for a record: a parenthesized string
/// four-tuple, the body as a raw string literal.
pub open spec fn spec_entry_line(rec: ContentRecord) -> Seq<char> {
    "    (\""@ + rec.id@ + "\", \""@ + rec.date@ + "\", \""@ + rec.title@ + "\", r###\""@
        + rec.body_html@ + "\"###),"@
}

/// The record lines, joined by newlines.
pub open spec fn spec_source_lines(recs: Seq<ContentRecord>) -> Seq<char>
    decreases recs.len(),
{
    if recs.len() == 0 {
        Seq::empty()
    } else if recs.len() == 1 {
        spec_entry_line(recs[0])
    } else {
        spec_source_lines(recs.drop_last()) + "\n"@ + spec_entry_line(recs.last())
    }
}

/// The whole generated source: a static slice holding every record.
pub open spec fn spec_table_source(name: Seq<char>, recs: Seq<ContentRecord>) -> Seq<char> {
    "static "@ + name + ": &[(&str, &str, &str, &str)] = &[\n"@ + spec_source_lines(recs)
        + "\n];"@
}

impl CollectionTable {
    /// Wraps an already-ordered sequence of records. The collection
    /// builder is the only intended caller.
    pub fn from_records(records: Vec<ContentRecord>) -> (r: CollectionTable)
        ensures
            r@ == records@,
    {
        CollectionTable { records }
    }

    /// How many records the table holds.
    pub fn len(&self) -> (r: usize)
        ensures
            r == self@.len(),
    {
        self.records.len()
    }

    /// The metadata of every record, in table order.
    pub fn get_content_metadata_list(&self) -> (r: Vec<ContentMetadata>)
        ensures
            lists_metadata_of(r@, self@),
    {
        let mut out: Vec<ContentMetadata> = Vec::new();
        let mut i: usize = 0;
        while i < self.records.len()
            invariant
                i <= self.records@.len(),
                self.records@ == self@,
                out@.len() == i,
                forall|j: int|
                    0 <= j < i ==> {
                        &&& (#[trigger] out@[j]).id@ == self@[j].id@
                        &&& out@[j].date@ == self@[j].date@
                        &&& out@[j].title@ == self@[j].title@
                    },
            decreases self.records@.len() - i,
        {
            let rec = &self.records[i];
            out.push(ContentMetadata {
                id: rec.id.clone(),
                date: rec.date.clone(),
                title: rec.title.clone(),
            });
            i = i + 1;
        }
        out
    }

    /// Renders the table as Rust source: a static slice of string
    /// four-tuples, one line per record. Field text is embedded verbatim
    /// (escaping is the embedder's concern).
    pub fn render_source(&self, name: &str) -> (r: String)
        ensures
            r@ == spec_table_source(name@, self@),
    {
        let mut s = String::new();
        s.append("static ");
        s.append(name);
        s.append(": &[(&str, &str, &str, &str)] = &[\n");
        let ghost header = "static "@ + name@ + ": &[(&str, &str, &str, &str)] = &[\n"@;
        proof {
            assert(s@ =~= header + spec_source_lines(self@.take(0)));
        }
        let mut i: usize = 0;
        while i < self.records.len()
            invariant
                i <= self.records@.len(),
                self.records@ == self@,
                s@ == header + spec_source_lines(self@.take(i as int)),
            decreases self.records@.len() - i,
        {
            if i > 0 {
                s.append("\n");
            }
            let rec = &self.records[i];
            s.append("    (\"");
            s.append(rec.id.as_str());
            s.append("\", \"");
            s.append(rec.date.as_str());
            s.append("\", \"");
            s.append(rec.title.as_str());
            s.append("\", r###\"");
            s.append(rec.body_html.as_str());
            s.append("\"###),");
            proof {
                assert(self@.take(i + 1).drop_last() =~= self@.take(i as int));
                assert(self@.take(i + 1).last() == self@[i as int]);
                assert(s@ =~= header + spec_source_lines(self@.take(i + 1)));
            }
            i = i + 1;
        }
        proof {
            assert(self@.take(self@.len() as int) =~= self@);
        }
        s.append("\n];");
        proof {
            assert(s@ =~= spec_table_source(name@, self@));
        }
        s
    }

    /// Fetches the first record whose emitted id equals `path`, returning
    /// its metadata and HTML body; returns nothing if no record matches.
    pub fn get_content(&self, path: &str) -> (r: Option<(ContentMetadata, String)>)
        ensures
            get_result_of(r, self@, path@),
    {
        let mut i: usize = 0;
        while i < self.records.len()
            invariant
                i <= self.records@.len(),
                self.records@ == self@,
                forall|j: int| 0 <= j < i ==> (#[trigger] self@[j]).id@ != path@,
            decreases self.records@.len() - i,
        {
            let rec = &self.records[i];
            if str_eq(rec.id.as_str(), path) {
                return Some(
                    (
                        ContentMetadata {
                            id: rec.id.clone(),
                            date: rec.date.clone(),
                            title: rec.title.clone(),
                        },
                        rec.body_html.clone(),
                    ),
                );
            }
            i = i + 1;
        }
        None
    }
}

} // verus!
