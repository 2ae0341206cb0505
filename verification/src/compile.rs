//! The collection builder: runs the filename parser, the metadata
//! extractor and the markdown stage over every document of a collection,
//! reports each skipped file with the stage that refused it, resolves
//! duplicate ids by keeping the first occurrence, and emits the sorted,
//! immutable content table.
use crate::date::Date;
use crate::date::spec_format_date;
use crate::date::valid_date;
use crate::date::format_date;
use crate::events::md_events;
use crate::filename::parse_filename;
use crate::filename::spec_parse_filename;
use crate::filename::NameError;
use crate::highlight::Highlighter;
use crate::meta::extract_title;
use crate::meta::spec_title;
use crate::rewrite::lemma_rewrite_deterministic_no_code;
use crate::rewrite::markdown_to_html;
use crate::rewrite::no_code_events;
use crate::rewrite::rewrite_ok;
use crate::table::CollectionTable;
use crate::table::ContentRecord;
use crate::text::dec_seq;
use crate::text::u32_to_dec;
use vstd::prelude::*;

verus! {

/// Why one file was excluded from the table. Skips are reported, never
/// silent, and never fatal to the batch.
#[derive(Clone, Copy, PartialEq, Eq, Structural, Debug)]
pub enum SkipReason {
    /// The name does not split into exactly three dash-delimited parts.
    NotThreeParts,
    /// The id part is not a non-negative integer that fits in 32 bits.
    InvalidId,
    /// The date part is not a valid `YYYYMMDD` date.
    InvalidDate,
    /// The body's first line lacks the `# ` title marker.
    MissingTitle,
    /// An earlier document already claimed this id; the first occurrence
    /// in input order is kept.
    DuplicateId,
}

/// One reported skip: the file's name and the stage that refused it.
pub struct SkipNotice {
    pub name: String,
    pub reason: SkipReason,
}

/// A document handed to the builder: its file name and its body text.
pub struct RawDocument {
    pub name: String,
    pub body: String,
}

impl DeepView for RawDocument {
    type V = (Seq<char>, Seq<char>);

    open spec fn deep_view(&self) -> (Seq<char>, Seq<char>) {
        (self.name@, self.body@)
    }
}

/// The decoded identity of one valid document: id, date, title, and the
/// body the HTML is rendered from.
pub ghost struct MetaV {
    pub id: u32,
    pub date: Date,
    pub title: Seq<char>,
    pub body: Seq<char>,
}

/// Decodes one document, or names the stage that refuses it: the
/// filename convention first, then the title marker.
pub open spec fn doc_meta(name: Seq<char>, body: Seq<char>) -> Result<MetaV, SkipReason> {
    match spec_parse_filename(name) {
        Err(NameError::NotThreeParts) => Err(SkipReason::NotThreeParts),
        Err(NameError::InvalidId) => Err(SkipReason::InvalidId),
        Err(NameError::InvalidDate) => Err(SkipReason::InvalidDate),
        Ok(m) => match spec_title(body) {
            None => Err(SkipReason::MissingTitle),
            Some(t) => Ok(MetaV { id: m.0, date: m.1, title: t, body }),
        },
    }
}

/// Is some element's id equal to `id`?
pub open spec fn has_id(ms: Seq<MetaV>, id: u32) -> bool {
    exists|i: int| 0 <= i < ms.len() && (#[trigger] ms[i]).id == id
}

/// The documents that survive every stage, in input order, with later
/// duplicate ids dropped.
pub open spec fn kept_metas(docs: Seq<(Seq<char>, Seq<char>)>) -> Seq<MetaV>
    decreases docs.len(),
{
    if docs.len() == 0 {
        Seq::empty()
    } else {
        let prev = kept_metas(docs.drop_last());
        match doc_meta(docs.last().0, docs.last().1) {
            Ok(m) => if has_id(prev, m.id) {
                prev
            } else {
                prev.push(m)
            },
            Err(_) => prev,
        }
    }
}

/// The skip report, in input order: one entry per excluded file, with
/// the reason.
pub open spec fn spec_skips(docs: Seq<(Seq<char>, Seq<char>)>) -> Seq<(Seq<char>, SkipReason)>
    decreases docs.len(),
{
    if docs.len() == 0 {
        Seq::empty()
    } else {
        let prev = spec_skips(docs.drop_last());
        let name = docs.last().0;
        match doc_meta(name, docs.last().1) {
            Ok(m) => if has_id(kept_metas(docs.drop_last()), m.id) {
                prev.push((name, SkipReason::DuplicateId))
            } else {
                prev
            },
            Err(r) => prev.push((name, r)),
        }
    }
}

/// Inserts `x` into `s`, walking from the back past every element whose
/// key is strictly greater.
pub open spec fn insert_sorted<A>(s: Seq<A>, x: A, key: spec_fn(A) -> u32) -> Seq<A>
    decreases s.len(),
{
    if s.len() == 0 {
        seq![x]
    } else if key(x) < key(s.last()) {
        insert_sorted(s.drop_last(), x, key).push(s.last())
    } else {
        s.push(x)
    }
}

/// Insertion sort by key, taking elements in order.
pub open spec fn sort_by_key<A>(s: Seq<A>, key: spec_fn(A) -> u32) -> Seq<A>
    decreases s.len(),
{
    if s.len() == 0 {
        Seq::empty()
    } else {
        insert_sorted(sort_by_key(s.drop_last(), key), s.last(), key)
    }
}

/// Ascending by key.
pub open spec fn sorted_by_key<A>(s: Seq<A>, key: spec_fn(A) -> u32) -> bool {
    forall|i: int, j: int| 0 <= i < j < s.len() ==> key(#[trigger] s[i]) <= key(#[trigger] s[j])
}

/// Where the back-walk stops, the insertion is a splice at that point.
proof fn lemma_insert_sorted_pos<A>(s: Seq<A>, x: A, key: spec_fn(A) -> u32, p: int)
    requires
        0 <= p <= s.len(),
        forall|j: int| p <= j < s.len() ==> key(#[trigger] s[j]) > key(x),
        p > 0 ==> key(s[p - 1]) <= key(x),
    ensures
        insert_sorted(s, x, key) == s.subrange(0, p) + seq![x] + s.subrange(p, s.len() as int),
    decreases s.len(),
{
    if s.len() == 0 {
        assert(insert_sorted(s, x, key) =~= s.subrange(0, p) + seq![x] + s.subrange(
            p,
            s.len() as int,
        ));
    } else if p == s.len() {
        assert(insert_sorted(s, x, key) == s.push(x));
        assert(s.push(x) =~= s.subrange(0, p) + seq![x] + s.subrange(p, s.len() as int));
    } else {
        assert(key(s.last()) > key(x));
        let t = s.drop_last();
        assert forall|j: int| p <= j < t.len() implies key(#[trigger] t[j]) > key(x) by {
            assert(t[j] == s[j]);
        }
        if p > 0 {
            assert(t[p - 1] == s[p - 1]);
        }
        lemma_insert_sorted_pos(t, x, key, p);
        assert(insert_sorted(t, x, key).push(s.last()) =~= s.subrange(0, p) + seq![x] + s.subrange(
            p,
            s.len() as int,
        ));
    }
}

/// Every element of the insertion result is `x` or an element of `s`.
proof fn lemma_insert_sorted_elems<A>(s: Seq<A>, x: A, key: spec_fn(A) -> u32)
    ensures
        insert_sorted(s, x, key).len() == s.len() + 1,
        forall|i: int|
            0 <= i < insert_sorted(s, x, key).len() ==> (#[trigger] insert_sorted(s, x, key)[i]
                == x || s.contains(insert_sorted(s, x, key)[i])),
    decreases s.len(),
{
    if s.len() > 0 && key(x) < key(s.last()) {
        let t = s.drop_last();
        lemma_insert_sorted_elems(t, x, key);
        let r = insert_sorted(s, x, key);
        let ri = insert_sorted(t, x, key);
        assert forall|i: int| 0 <= i < r.len() implies (#[trigger] r[i] == x || s.contains(
            r[i],
        )) by {
            if i < ri.len() {
                assert(r[i] == ri[i]);
                if ri[i] != x {
                    let w = choose|w: int| 0 <= w < t.len() && t[w] == ri[i];
                    assert(s[w] == ri[i]);
                }
            } else {
                assert(r[i] == s.last());
                assert(s[s.len() - 1] == s.last());
            }
        }
    } else {
        if s.len() > 0 {
            assert forall|i: int|
                0 <= i < insert_sorted(s, x, key).len() implies (#[trigger] insert_sorted(
                s,
                x,
                key,
            )[i] == x || s.contains(insert_sorted(s, x, key)[i])) by {
                if i < s.len() {
                    assert(insert_sorted(s, x, key)[i] == s[i]);
                }
            }
        }
    }
}

/// Insertion keeps the sequence ascending.
proof fn lemma_insert_sorted_sorted<A>(s: Seq<A>, x: A, key: spec_fn(A) -> u32)
    requires
        sorted_by_key(s, key),
    ensures
        sorted_by_key(insert_sorted(s, x, key), key),
    decreases s.len(),
{
    if s.len() > 0 && key(x) < key(s.last()) {
        let t = s.drop_last();
        assert forall|i: int, j: int| 0 <= i < j < t.len() implies key(#[trigger] t[i]) <= key(
            #[trigger] t[j],
        ) by {
            assert(t[i] == s[i] && t[j] == s[j]);
        }
        lemma_insert_sorted_sorted(t, x, key);
        lemma_insert_sorted_elems(t, x, key);
        let ri = insert_sorted(t, x, key);
        let r = ri.push(s.last());
        assert forall|i: int, j: int| 0 <= i < j < r.len() implies key(#[trigger] r[i]) <= key(
            #[trigger] r[j],
        ) by {
            if j < ri.len() {
                assert(r[i] == ri[i] && r[j] == ri[j]);
            } else {
                assert(r[j] == s.last());
                assert(r[i] == ri[i]);
                if ri[i] != x {
                    let w = choose|w: int| 0 <= w < t.len() && t[w] == ri[i];
                    assert(key(t[w]) <= key(s.last()));
                }
            }
        }
    } else {
        if s.len() > 0 {
            let r = s.push(x);
            assert forall|i: int, j: int| 0 <= i < j < r.len() implies key(#[trigger] r[i]) <= key(
                #[trigger] r[j],
            ) by {
                if j < s.len() {
                    assert(r[i] == s[i] && r[j] == s[j]);
                } else {
                    assert(r[j] == x);
                    assert(r[i] == s[i]);
                    if i < s.len() - 1 {
                        assert(key(s[i]) <= key(s.last()));
                    }
                }
            }
        }
    }
}

/// No two elements share a key.
pub open spec fn distinct_keys<A>(s: Seq<A>, key: spec_fn(A) -> u32) -> bool {
    forall|i: int, j: int| 0 <= i < j < s.len() ==> key(#[trigger] s[i]) != key(#[trigger] s[j])
}

/// Insertion keeps keys pairwise distinct, provided the new key is
/// fresh.
proof fn lemma_insert_sorted_distinct<A>(s: Seq<A>, x: A, key: spec_fn(A) -> u32)
    requires
        distinct_keys(s, key),
        forall|i: int| 0 <= i < s.len() ==> key(#[trigger] s[i]) != key(x),
    ensures
        distinct_keys(insert_sorted(s, x, key), key),
    decreases s.len(),
{
    if s.len() > 0 && key(x) < key(s.last()) {
        let t = s.drop_last();
        assert forall|i: int, j: int| 0 <= i < j < t.len() implies key(#[trigger] t[i]) != key(
            #[trigger] t[j],
        ) by {
            assert(t[i] == s[i] && t[j] == s[j]);
        }
        assert forall|i: int| 0 <= i < t.len() implies key(#[trigger] t[i]) != key(x) by {
            assert(t[i] == s[i]);
        }
        lemma_insert_sorted_distinct(t, x, key);
        lemma_insert_sorted_elems(t, x, key);
        let ri = insert_sorted(t, x, key);
        let r = ri.push(s.last());
        assert forall|i: int, j: int| 0 <= i < j < r.len() implies key(#[trigger] r[i]) != key(
            #[trigger] r[j],
        ) by {
            if j < ri.len() {
                assert(r[i] == ri[i] && r[j] == ri[j]);
            } else {
                assert(r[j] == s.last());
                assert(r[i] == ri[i]);
                if ri[i] == x {
                    assert(key(x) < key(s.last()));
                } else {
                    let w = choose|w: int| 0 <= w < t.len() && t[w] == ri[i];
                    assert(s[w] == t[w]);
                    assert(key(s[w]) != key(s[s.len() - 1]));
                }
            }
        }
    } else {
        if s.len() > 0 {
            let r = s.push(x);
            assert forall|i: int, j: int| 0 <= i < j < r.len() implies key(#[trigger] r[i]) != key(
                #[trigger] r[j],
            ) by {
                if j < s.len() {
                    assert(r[i] == s[i] && r[j] == s[j]);
                } else {
                    assert(r[j] == x && r[i] == s[i]);
                }
            }
        }
    }
}

/// Sorting keeps keys pairwise distinct.
proof fn lemma_sort_by_key_distinct<A>(s: Seq<A>, key: spec_fn(A) -> u32)
    requires
        distinct_keys(s, key),
    ensures
        distinct_keys(sort_by_key(s, key), key),
    decreases s.len(),
{
    if s.len() > 0 {
        let t = s.drop_last();
        assert forall|i: int, j: int| 0 <= i < j < t.len() implies key(#[trigger] t[i]) != key(
            #[trigger] t[j],
        ) by {
            assert(t[i] == s[i] && t[j] == s[j]);
        }
        lemma_sort_by_key_distinct(t, key);
        let st = sort_by_key(t, key);
        assert forall|i: int| 0 <= i < st.len() implies key(#[trigger] st[i]) != key(s.last()) by {
            lemma_sort_by_key_elems(t, key);
            let w = choose|w: int| 0 <= w < t.len() && t[w] == st[i];
            assert(s[w] == t[w]);
            assert(key(s[w]) != key(s[s.len() - 1]));
        }
        lemma_insert_sorted_distinct(st, s.last(), key);
    }
}

/// Every element of the sort's output is an element of its input.
proof fn lemma_sort_by_key_elems<A>(s: Seq<A>, key: spec_fn(A) -> u32)
    ensures
        forall|i: int|
            0 <= i < sort_by_key(s, key).len() ==> s.contains(#[trigger] sort_by_key(s, key)[i]),
    decreases s.len(),
{
    if s.len() > 0 {
        let t = s.drop_last();
        lemma_sort_by_key_elems(t, key);
        lemma_insert_sorted_elems(sort_by_key(t, key), s.last(), key);
        let r = sort_by_key(s, key);
        assert forall|i: int| 0 <= i < r.len() implies s.contains(#[trigger] r[i]) by {
            if r[i] == s.last() {
                assert(s[s.len() - 1] == s.last());
            } else {
                assert(sort_by_key(t, key).contains(r[i]));
                let w = choose|w: int| 0 <= w < sort_by_key(t, key).len() && sort_by_key(t, key)[w]
                    == r[i];
                let v = choose|v: int| 0 <= v < t.len() && t[v] == r[i];
                assert(s[v] == t[v]);
            }
        }
    }
}

/// The sort's output is ascending.
pub proof fn lemma_sort_by_key_sorted<A>(s: Seq<A>, key: spec_fn(A) -> u32)
    ensures
        sorted_by_key(sort_by_key(s, key), key),
        sort_by_key(s, key).len() == s.len(),
    decreases s.len(),
{
    if s.len() > 0 {
        lemma_sort_by_key_sorted(s.drop_last(), key);
        lemma_insert_sorted_sorted(sort_by_key(s.drop_last(), key), s.last(), key);
        lemma_insert_sorted_elems(sort_by_key(s.drop_last(), key), s.last(), key);
    }
}

/// The id of a decoded document, as a sort key.
pub open spec fn meta_key() -> spec_fn(MetaV) -> u32 {
    |m: MetaV| m.id
}

/// The table a collection compiles to, at the specification level: the
/// kept documents sorted ascending by id.
pub open spec fn spec_table(docs: Seq<(Seq<char>, Seq<char>)>) -> Seq<MetaV> {
    sort_by_key(kept_metas(docs), meta_key())
}

/// The kept documents carry pairwise distinct ids: the duplicate policy
/// keeps only the first occurrence of each id.
pub proof fn lemma_kept_metas_distinct(docs: Seq<(Seq<char>, Seq<char>)>)
    ensures
        distinct_keys(kept_metas(docs), meta_key()),
    decreases docs.len(),
{
    let k = meta_key();
    if docs.len() > 0 {
        lemma_kept_metas_distinct(docs.drop_last());
        let prev = kept_metas(docs.drop_last());
        let cur = kept_metas(docs);
        match doc_meta(docs.last().0, docs.last().1) {
            Ok(m) => {
                if !has_id(prev, m.id) {
                    assert forall|i: int, j: int| 0 <= i < j < cur.len() implies k(
                        #[trigger] cur[i],
                    ) != k(#[trigger] cur[j]) by {
                        if j < prev.len() {
                            assert(cur[i] == prev[i] && cur[j] == prev[j]);
                        } else {
                            assert(cur[j] == m && cur[i] == prev[i]);
                            assert(!(0 <= i < prev.len() && prev[i].id == m.id));
                        }
                    }
                }
            },
            Err(_) => {},
        }
    }
}

/// The output table is sorted strictly ascending by id, whatever the
/// input order: ids are unique and each record's id exceeds the one
/// before it.
pub proof fn lemma_table_sorted_by_id(docs: Seq<(Seq<char>, Seq<char>)>)
    ensures
        sorted_by_key(spec_table(docs), meta_key()),
        distinct_keys(spec_table(docs), meta_key()),
        spec_table(docs).len() == kept_metas(docs).len(),
        forall|i: int, j: int|
            0 <= i < j < spec_table(docs).len() ==> (#[trigger] spec_table(docs)[i]).id < (
            #[trigger] spec_table(docs)[j]).id,
{
    let k = meta_key();
    lemma_sort_by_key_sorted(kept_metas(docs), k);
    lemma_kept_metas_distinct(docs);
    lemma_sort_by_key_distinct(kept_metas(docs), k);
    let t = spec_table(docs);
    assert forall|i: int, j: int| 0 <= i < j < t.len() implies (#[trigger] t[i]).id < (
    #[trigger] t[j]).id by {
        assert(k(t[i]) <= k(t[j]));
        assert(k(t[i]) != k(t[j]));
    }
}

/// One kept document while the builder runs: decoded identity plus the
/// rendered HTML.
struct Entry {
    id: u32,
    date: Date,
    title: String,
    html: String,
}

/// The id of an entry, as a sort key.
spec fn entry_key() -> spec_fn(Entry) -> u32 {
    |e: Entry| e.id
}

/// An entry carries exactly the decoded identity of `m`, a valid date,
/// and HTML that the markdown stage could have produced for `m`'s body.
spec fn entry_matches(e: Entry, m: MetaV) -> bool {
    &&& e.id == m.id
    &&& e.date == m.date
    &&& valid_date(m.date)
    &&& e.title@ == m.title
    &&& rewrite_ok(m.body, e.html@)
}

spec fn entries_match(es: Seq<Entry>, ms: Seq<MetaV>) -> bool {
    &&& es.len() == ms.len()
    &&& forall|i: int| 0 <= i < es.len() ==> entry_matches(#[trigger] es[i], ms[i])
}

/// Inserting matching elements into matching sequences keeps them
/// matching.
proof fn lemma_insert_matches(es: Seq<Entry>, ms: Seq<MetaV>, e: Entry, m: MetaV)
    requires
        entries_match(es, ms),
        entry_matches(e, m),
    ensures
        entries_match(
            insert_sorted(es, e, entry_key()),
            insert_sorted(ms, m, meta_key()),
        ),
    decreases es.len(),
{
    let re = insert_sorted(es, e, entry_key());
    let rm = insert_sorted(ms, m, meta_key());
    if es.len() == 0 {
        assert(entries_match(re, rm));
    } else {
        assert(entry_matches(es.last(), ms.last()));
        if e.id < es.last().id {
            let te = es.drop_last();
            let tm = ms.drop_last();
            assert forall|i: int| 0 <= i < te.len() implies entry_matches(
                #[trigger] te[i],
                tm[i],
            ) by {
                assert(te[i] == es[i] && tm[i] == ms[i]);
            }
            lemma_insert_matches(te, tm, e, m);
            assert forall|i: int| 0 <= i < re.len() implies entry_matches(
                #[trigger] re[i],
                rm[i],
            ) by {
                let ie = insert_sorted(te, e, entry_key());
                let im = insert_sorted(tm, m, meta_key());
                if i < ie.len() {
                    assert(re[i] == ie[i] && rm[i] == im[i]);
                } else {
                    assert(re[i] == es.last() && rm[i] == ms.last());
                }
            }
        } else {
            assert forall|i: int| 0 <= i < re.len() implies entry_matches(
                #[trigger] re[i],
                rm[i],
            ) by {
                if i < es.len() {
                    assert(re[i] == es[i] && rm[i] == ms[i]);
                } else {
                    assert(re[i] == e && rm[i] == m);
                }
            }
        }
    }
}

/// Sorting matching sequences keeps them matching.
proof fn lemma_sort_matches(es: Seq<Entry>, ms: Seq<MetaV>)
    requires
        entries_match(es, ms),
    ensures
        entries_match(
            sort_by_key(es, entry_key()),
            sort_by_key(ms, meta_key()),
        ),
    decreases es.len(),
{
    if es.len() > 0 {
        let te = es.drop_last();
        let tm = ms.drop_last();
        assert forall|i: int| 0 <= i < te.len() implies entry_matches(#[trigger] te[i], tm[i]) by {
            assert(te[i] == es[i] && tm[i] == ms[i]);
        }
        lemma_sort_matches(te, tm);
        assert(entry_matches(es.last(), ms.last()));
        lemma_insert_matches(sort_by_key(te, entry_key()), sort_by_key(tm, meta_key()), es.last(), ms.last());
    }
}

/// Is some entry's id equal to `id`?
fn has_entry_id(v: &Vec<Entry>, id: u32) -> (r: bool)
    ensures
        r == exists|j: int| 0 <= j < v@.len() && (#[trigger] v@[j]).id == id,
{
    let mut i: usize = 0;
    while i < v.len()
        invariant
            i <= v@.len(),
            forall|j: int| 0 <= j < i ==> (#[trigger] v@[j]).id != id,
        decreases v@.len() - i,
    {
        if v[i].id == id {
            return true;
        }
        i = i + 1;
    }
    false
}

/// Inserts one entry into an already-built prefix, walking from the back
/// past every entry with a strictly greater id.
fn insert_entry(acc: &mut Vec<Entry>, e: Entry)
    ensures
        final(acc)@ == insert_sorted(old(acc)@, e, entry_key()),
{
    let eid = e.id;
    let mut p: usize = acc.len();
    while p > 0 && acc[p - 1].id > eid
        invariant
            p <= acc@.len(),
            acc@ == old(acc)@,
            forall|j: int| p <= j < acc@.len() ==> (#[trigger] acc@[j]).id > eid,
        decreases p,
    {
        p = p - 1;
    }
    proof {
        lemma_insert_sorted_pos(acc@, e, entry_key(), p as int);
    }
    let ghost before = acc@;
    acc.insert(p, e);
    proof {
        assert(acc@ =~= before.subrange(0, p as int) + seq![e] + before.subrange(
            p as int,
            before.len() as int,
        ));
    }
}

/// Sorts the kept entries ascending by id, taking them in input order.
fn sort_entries(list: Vec<Entry>) -> (r: Vec<Entry>)
    ensures
        r@ == sort_by_key(list@, entry_key()),
{
    let ghost all = list@;
    let mut rest = list;
    let mut acc: Vec<Entry> = Vec::new();
    let ghost mut k: int = 0;
    proof {
        assert(all.take(0) =~= Seq::<Entry>::empty());
        assert(rest@ =~= all.skip(0));
    }
    while rest.len() > 0
        invariant
            0 <= k <= all.len(),
            rest@ == all.skip(k),
            acc@ == sort_by_key(all.take(k), entry_key()),
        decreases rest@.len(),
    {
        let ghost rs0 = rest@;
        let e = rest.remove(0);
        proof {
            assert(rest@ =~= all.skip(k + 1));
            assert(e == all[k]);
            assert(all.take(k + 1).drop_last() =~= all.take(k));
            assert(all.take(k + 1).last() == all[k]);
        }
        insert_entry(&mut acc, e);
        proof {
            k = k + 1;
        }
    }
    proof {
        assert(all.take(k) =~= all);
    }
    acc
}

/// One emitted record carries exactly the decoded identity of `m`, with
/// the id and date rendered, and HTML the markdown stage could have
/// produced for `m`'s body.
pub open spec fn rec_matches(rec: ContentRecord, m: MetaV) -> bool {
    &&& rec.id@ == dec_seq(m.id as nat)
    &&& rec.date@ == spec_format_date(m.date)
    &&& rec.title@ == m.title
    &&& rewrite_ok(m.body, rec.body_html@)
}

/// What the builder guarantees about an emitted table: one record per
/// entry of the specification-level table, in its order.
pub open spec fn compiled_from(recs: Seq<ContentRecord>, docs: Seq<(Seq<char>, Seq<char>)>) -> bool {
    &&& recs.len() == spec_table(docs).len()
    &&& forall|i: int| 0 <= i < recs.len() ==> rec_matches(#[trigger] recs[i], spec_table(docs)[i])
}

/// The emitted skip report mirrors the specification-level one.
pub open spec fn skips_match(sk: Seq<SkipNotice>, sp: Seq<(Seq<char>, SkipReason)>) -> bool {
    &&& sk.len() == sp.len()
    &&& forall|i: int|
        0 <= i < sk.len() ==> (#[trigger] sk[i]).name@ == sp[i].0 && sk[i].reason == sp[i].1
}

/// A document that some stage refuses contributes nothing and changes
/// nothing: the kept documents are exactly those of the batch without
/// it, wherever in the input it stands.
proof fn lemma_refused_doc_kept_unchanged(
    xs: Seq<(Seq<char>, Seq<char>)>,
    d: (Seq<char>, Seq<char>),
    ys: Seq<(Seq<char>, Seq<char>)>,
)
    requires
        doc_meta(d.0, d.1) is Err,
    ensures
        kept_metas(xs + seq![d] + ys) == kept_metas(xs + ys),
    decreases ys.len(),
{
    if ys.len() == 0 {
        assert((xs + seq![d] + ys).drop_last() =~= xs);
        assert((xs + seq![d] + ys).last() == d);
        assert(xs + ys =~= xs);
    } else {
        let yt = ys.drop_last();
        let y = ys.last();
        lemma_refused_doc_kept_unchanged(xs, d, yt);
        assert((xs + seq![d] + ys).drop_last() =~= xs + seq![d] + yt);
        assert((xs + seq![d] + ys).last() == y);
        assert((xs + ys).drop_last() =~= xs + yt);
        assert((xs + ys).last() == y);
    }
}

/// Compilation succeeds for the remaining files whatever invalid files
/// sit among them: a document refused by any stage is absent from the
/// output table, and the table is exactly the one the other documents
/// compile to.
pub proof fn lemma_skipped_file_leaves_table_unchanged(
    xs: Seq<(Seq<char>, Seq<char>)>,
    d: (Seq<char>, Seq<char>),
    ys: Seq<(Seq<char>, Seq<char>)>,
)
    requires
        doc_meta(d.0, d.1) is Err,
    ensures
        spec_table(xs + seq![d] + ys) == spec_table(xs + ys),
{
    lemma_refused_doc_kept_unchanged(xs, d, ys);
}

/// Insertion keeps every element of `s` and adds `x`.
proof fn lemma_insert_sorted_contains<A>(s: Seq<A>, x: A, key: spec_fn(A) -> u32)
    ensures
        insert_sorted(s, x, key).contains(x),
        forall|e: A| s.contains(e) ==> insert_sorted(s, x, key).contains(e),
    decreases s.len(),
{
    let r = insert_sorted(s, x, key);
    if s.len() > 0 && key(x) < key(s.last()) {
        let t = s.drop_last();
        lemma_insert_sorted_contains(t, x, key);
        let ri = insert_sorted(t, x, key);
        let wx = choose|w: int| 0 <= w < ri.len() && ri[w] == x;
        assert(r[wx] == x);
        assert(r.contains(x));
        assert forall|e: A| s.contains(e) implies r.contains(e) by {
            let w = choose|w: int| 0 <= w < s.len() && s[w] == e;
            if w == s.len() - 1 {
                assert(r[r.len() - 1] == e);
            } else {
                assert(0 <= w < t.len());
                assert(t[w] == e);
                assert(t.contains(e));
                assert(ri.contains(e));
                let wi = choose|wi: int| 0 <= wi < ri.len() && ri[wi] == e;
                assert(r[wi] == e);
            }
        }
    } else {
        assert(r == s.push(x));
        assert(r[r.len() - 1] == x);
        assert(r.contains(x));
        assert forall|e: A| s.contains(e) implies r.contains(e) by {
            let w = choose|w: int| 0 <= w < s.len() && s[w] == e;
            assert(r[w] == e);
        }
    }
}

/// Sorting keeps every element.
proof fn lemma_sort_by_key_contains<A>(s: Seq<A>, key: spec_fn(A) -> u32)
    ensures
        forall|e: A| s.contains(e) ==> sort_by_key(s, key).contains(e),
    decreases s.len(),
{
    if s.len() > 0 {
        let t = s.drop_last();
        lemma_sort_by_key_contains(t, key);
        lemma_insert_sorted_contains(sort_by_key(t, key), s.last(), key);
        assert forall|e: A| s.contains(e) implies sort_by_key(s, key).contains(e) by {
            let w = choose|w: int| 0 <= w < s.len() && s[w] == e;
            if w < s.len() - 1 {
                assert(t[w] == e);
                assert(t.contains(e));
            }
        }
    }
}

/// A valid document whose id no earlier kept document claims is always
/// kept, wherever in the input it stands.
proof fn lemma_valid_doc_is_kept(
    xs: Seq<(Seq<char>, Seq<char>)>,
    d: (Seq<char>, Seq<char>),
    ys: Seq<(Seq<char>, Seq<char>)>,
    m: MetaV,
)
    requires
        doc_meta(d.0, d.1) == Ok::<MetaV, SkipReason>(m),
        !has_id(kept_metas(xs), m.id),
    ensures
        kept_metas(xs + seq![d] + ys).contains(m),
    decreases ys.len(),
{
    if ys.len() == 0 {
        assert((xs + seq![d] + ys).drop_last() =~= xs);
        assert((xs + seq![d] + ys).last() == d);
        let prev = kept_metas(xs);
        assert(kept_metas(xs + seq![d] + ys) == prev.push(m));
        assert(prev.push(m)[prev.len() as int] == m);
    } else {
        let yt = ys.drop_last();
        let y = ys.last();
        lemma_valid_doc_is_kept(xs, d, yt, m);
        assert((xs + seq![d] + ys).drop_last() =~= xs + seq![d] + yt);
        assert((xs + seq![d] + ys).last() == y);
        let prev = kept_metas(xs + seq![d] + yt);
        let cur = kept_metas(xs + seq![d] + ys);
        let w = choose|w: int| 0 <= w < prev.len() && prev[w] == m;
        match doc_meta(y.0, y.1) {
            Ok(my) => {
                if has_id(prev, my.id) {
                    assert(cur == prev);
                } else {
                    assert(cur == prev.push(my));
                    assert(cur[w] == m);
                }
            },
            Err(_) => {
                assert(cur == prev);
            },
        }
    }
}

/// Every well-formed document whose id is fresh lands in the output
/// table: its decoded identity stands among the sorted records, however
/// the rest of the batch looks.
pub proof fn lemma_valid_doc_is_compiled(
    xs: Seq<(Seq<char>, Seq<char>)>,
    d: (Seq<char>, Seq<char>),
    ys: Seq<(Seq<char>, Seq<char>)>,
    m: MetaV,
)
    requires
        doc_meta(d.0, d.1) == Ok::<MetaV, SkipReason>(m),
        !has_id(kept_metas(xs), m.id),
    ensures
        spec_table(xs + seq![d] + ys).contains(m),
{
    lemma_valid_doc_is_kept(xs, d, ys, m);
    lemma_sort_by_key_contains(kept_metas(xs + seq![d] + ys), meta_key());
}

/// The emitted id strings of a compiled table are pairwise distinct, so
/// fetching by id is unambiguous.
pub proof fn lemma_compiled_ids_distinct(
    recs: Seq<ContentRecord>,
    docs: Seq<(Seq<char>, Seq<char>)>,
)
    requires
        compiled_from(recs, docs),
    ensures
        forall|i: int, j: int|
            0 <= i < j < recs.len() ==> (#[trigger] recs[i]).id@ != (#[trigger] recs[j]).id@,
{
    lemma_table_sorted_by_id(docs);
    let tm = spec_table(docs);
    assert forall|i: int, j: int| 0 <= i < j < recs.len() implies (#[trigger] recs[i]).id@ != (
    #[trigger] recs[j]).id@ by {
        crate::text::lemma_dec_seq_val(tm[i].id as nat);
        crate::text::lemma_dec_seq_val(tm[j].id as nat);
        assert(tm[i].id < tm[j].id);
        assert(recs[i].id@ == dec_seq(tm[i].id as nat));
        assert(recs[j].id@ == dec_seq(tm[j].id as nat));
    }
}

/// Recompiling an unchanged collection yields identical metadata: any
/// two tables compiled from the same documents agree, record by record,
/// on the emitted id, date and title.
pub proof fn lemma_recompile_metadata_identical(
    r1: Seq<ContentRecord>,
    r2: Seq<ContentRecord>,
    docs: Seq<(Seq<char>, Seq<char>)>,
)
    requires
        compiled_from(r1, docs),
        compiled_from(r2, docs),
    ensures
        r1.len() == r2.len(),
        forall|i: int|
            0 <= i < r1.len() ==> {
                &&& (#[trigger] r1[i]).id@ == r2[i].id@
                &&& r1[i].date@ == r2[i].date@
                &&& r1[i].title@ == r2[i].title@
            },
{
}

/// Recompiling an unchanged collection in which no kept document's
/// markdown produces a code block yields byte-identical tables, HTML
/// bodies included.
pub proof fn lemma_recompile_identical_no_code(
    r1: Seq<ContentRecord>,
    r2: Seq<ContentRecord>,
    docs: Seq<(Seq<char>, Seq<char>)>,
)
    requires
        compiled_from(r1, docs),
        compiled_from(r2, docs),
        forall|i: int|
            0 <= i < spec_table(docs).len() ==> no_code_events(
                md_events((#[trigger] spec_table(docs)[i]).body),
            ),
    ensures
        r1.len() == r2.len(),
        forall|i: int|
            0 <= i < r1.len() ==> {
                &&& (#[trigger] r1[i]).id@ == r2[i].id@
                &&& r1[i].date@ == r2[i].date@
                &&& r1[i].title@ == r2[i].title@
                &&& r1[i].body_html@ == r2[i].body_html@
            },
{
    assert forall|i: int| 0 <= i < r1.len() implies (#[trigger] r1[i]).body_html@
        == r2[i].body_html@ by {
        let m = spec_table(docs)[i];
        lemma_rewrite_deterministic_no_code(m.body, r1[i].body_html@, r2[i].body_html@);
    }
}

/// Compiles one collection: every document runs through the filename
/// parser, the title extractor and the markdown stage in turn; a failing
/// stage excludes that one file and is reported; a later document whose
/// id is already taken is excluded too (the first occurrence wins); the
/// survivors are sorted ascending by id and emitted as the collection's
/// immutable table, dates rendered as `DD-Mon-YYYY`.
#[verifier::rlimit(80)]
pub fn compile_collection(docs: &Vec<RawDocument>, hl: &Highlighter) -> (r: (
    CollectionTable,
    Vec<SkipNotice>,
))
    ensures
        compiled_from(r.0@, docs.deep_view()),
        skips_match(r.1@, spec_skips(docs.deep_view())),
{
    let ghost dv = docs.deep_view();
    let mut kept: Vec<Entry> = Vec::new();
    let mut skips: Vec<SkipNotice> = Vec::new();
    let mut i: usize = 0;
    proof {
        assert(dv.take(0) =~= Seq::<(Seq<char>, Seq<char>)>::empty());
    }
    while i < docs.len()
        invariant
            i <= docs@.len(),
            dv == docs.deep_view(),
            dv.len() == docs@.len(),
            entries_match(kept@, kept_metas(dv.take(i as int))),
            skips_match(skips@, spec_skips(dv.take(i as int))),
        decreases docs@.len() - i,
    {
        let d = &docs[i];
        let ghost km = kept_metas(dv.take(i as int));
        proof {
            assert(dv[i as int] == (d.name@, d.body@));
            assert(dv.take(i + 1).drop_last() =~= dv.take(i as int));
            assert(dv.take(i + 1).last() == dv[i as int]);
        }
        match parse_filename(d.name.as_str()) {
            Err(e) => {
                let reason = match e {
                    NameError::NotThreeParts => SkipReason::NotThreeParts,
                    NameError::InvalidId => SkipReason::InvalidId,
                    NameError::InvalidDate => SkipReason::InvalidDate,
                };
                let ghost sk0 = skips@;
                skips.push(SkipNotice { name: d.name.clone(), reason });
                proof {
                    assert(doc_meta(d.name@, d.body@) == Err::<MetaV, SkipReason>(reason));
                    assert(skips@ =~= sk0.push(skips@.last()));
                    assert(kept_metas(dv.take(i + 1)) == km);
                }
            },
            Ok(p) => {
                match extract_title(d.body.as_str()) {
                    None => {
                        skips.push(
                            SkipNotice { name: d.name.clone(), reason: SkipReason::MissingTitle },
                        );
                        proof {
                            assert(doc_meta(d.name@, d.body@) == Err::<MetaV, SkipReason>(
                                SkipReason::MissingTitle,
                            ));
                            assert(kept_metas(dv.take(i + 1)) == km);
                        }
                    },
                    Some(title) => {
                        let ghost m = MetaV {
                            id: p.id,
                            date: p.date,
                            title: title@,
                            body: d.body@,
                        };
                        proof {
                            assert(doc_meta(d.name@, d.body@) == Ok::<MetaV, SkipReason>(m));
                        }
                        let dup = has_entry_id(&kept, p.id);
                        proof {
                            if dup {
                                let w = choose|j: int|
                                    0 <= j < kept@.len() && (#[trigger] kept@[j]).id == p.id;
                                assert(km[w].id == p.id);
                                assert(has_id(km, m.id));
                            } else {
                                assert forall|j: int|
                                    0 <= j < km.len() implies (#[trigger] km[j]).id != m.id by {
                                    assert(kept@[j].id == km[j].id);
                                }
                                assert(!has_id(km, m.id));
                            }
                        }
                        if dup {
                            skips.push(
                                SkipNotice {
                                    name: d.name.clone(),
                                    reason: SkipReason::DuplicateId,
                                },
                            );
                            proof {
                                assert(kept_metas(dv.take(i + 1)) == km);
                            }
                        } else {
                            let html = markdown_to_html(d.body.as_str(), hl);
                            let ghost k0 = kept@;
                            kept.push(Entry { id: p.id, date: p.date, title, html });
                            proof {
                                assert(valid_date(m.date));
                                assert(entry_matches(kept@.last(), m));
                                assert(kept_metas(dv.take(i + 1)) == km.push(m));
                                assert(kept@ =~= k0.push(kept@.last()));
                                assert forall|j: int|
                                    0 <= j < kept@.len() implies entry_matches(
                                    #[trigger] kept@[j],
                                    kept_metas(dv.take(i + 1))[j],
                                ) by {
                                    if j < k0.len() {
                                        assert(kept@[j] == k0[j]);
                                        assert(kept_metas(dv.take(i + 1))[j] == km[j]);
                                    }
                                }
                                assert(spec_skips(dv.take(i + 1)) == spec_skips(dv.take(i as int)));
                            }
                        }
                    },
                }
            },
        }
        i = i + 1;
    }
    proof {
        assert(dv.take(docs@.len() as int) =~= dv);
    }
    let ghost keptv = kept@;
    let sorted = sort_entries(kept);
    proof {
        lemma_sort_matches(keptv, kept_metas(dv));
    }
    let ghost tm = spec_table(dv);
    let mut rest = sorted;
    let mut records: Vec<ContentRecord> = Vec::new();
    let ghost mut k: int = 0;
    proof {
        assert(rest@ =~= rest@.skip(0));
    }
    while rest.len() > 0
        invariant
            0 <= k <= tm.len(),
            rest@.len() == tm.len() - k,
            forall|j: int| 0 <= j < rest@.len() ==> entry_matches(#[trigger] rest@[j], tm[k + j]),
            records@.len() == k,
            forall|j: int| 0 <= j < k ==> rec_matches(#[trigger] records@[j], tm[j]),
        decreases rest@.len(),
    {
        let ghost rs0 = rest@;
        let e = rest.remove(0);
        proof {
            assert(e == rs0[0]);
            assert(entry_matches(e, tm[k]));
            assert forall|j: int| 0 <= j < rest@.len() implies entry_matches(
                #[trigger] rest@[j],
                tm[k + 1 + j],
            ) by {
                assert(rest@[j] == rs0[j + 1]);
            }
        }
        let id_text = u32_to_dec(e.id);
        let date_text = format_date(&e.date);
        records.push(
            ContentRecord { id: id_text, date: date_text, title: e.title, body_html: e.html },
        );
        proof {
            k = k + 1;
        }
    }
    (CollectionTable::from_records(records), skips)
}

} // verus!
