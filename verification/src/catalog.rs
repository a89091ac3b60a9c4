//! The catalog store: records in recency order without repetition, and the
//! image path of each tag.

use vstd::prelude::*;
use crate::laws::{lemma_path_map, lemma_path_map_push, lemma_path_map_update, lemma_position_of};
use crate::model::{
    matches_any, path_map, position_of, restored, tags_distinct, CatalogView, SnapshotView,
};
use crate::record::{ImagePathEntry, ImagePathView, Record, RecordView};
use crate::text::contains_substring;

verus! {

/// Whether `text` is one of `list`.
pub fn list_contains(list: &Vec<String>, text: &String) -> (b: bool)
    ensures
        b == list.deep_view().contains(text@),
{
    let n: usize = list.len();
    let mut i: usize = 0;
    while i < n
        invariant
            i <= n,
            n == list@.len(),
            forall|k: int| 0 <= k < i ==> (#[trigger] list.deep_view()[k]) != text@,
        decreases n - i,
    {
        if list[i] == *text {
            assert(list.deep_view()[i as int] == text@);
            return true;
        }
        i = i + 1;
    }
    false
}

/// Whether `origin_tag` holds one of `keywords` as a substring.
pub fn origin_matches(origin_tag: &String, keywords: &Vec<String>) -> (b: bool)
    ensures
        b == matches_any(origin_tag@, keywords.deep_view()),
{
    let n: usize = keywords.len();
    let mut i: usize = 0;
    while i < n
        invariant
            i <= n,
            n == keywords@.len(),
            forall|k: int|
                0 <= k < i ==> !crate::text::is_substring(
                    #[trigger] keywords.deep_view()[k],
                    origin_tag@,
                ),
        decreases n - i,
    {
        if contains_substring(origin_tag.as_str(), keywords[i].as_str()) {
            assert(crate::text::is_substring(keywords.deep_view()[i as int], origin_tag@));
            return true;
        }
        i = i + 1;
    }
    false
}

/// The plain content of a catalog, as it is written to and read from a
/// cache.
#[derive(Debug, PartialEq, Eq)]
pub struct Snapshot {
    pub records: Vec<Record>,
    pub paths: Vec<ImagePathEntry>,
}

impl View for Snapshot {
    type V = SnapshotView;

    open spec fn view(&self) -> SnapshotView {
        SnapshotView { records: self.records.deep_view(), paths: self.paths.deep_view() }
    }
}

impl DeepView for Snapshot {
    type V = SnapshotView;

    open spec fn deep_view(&self) -> SnapshotView {
        self@
    }
}

/// A catalog of records and image paths.
#[derive(Debug)]
pub struct Catalog {
    items: Vec<Record>,
    paths: Vec<ImagePathEntry>,
}

impl View for Catalog {
    type V = CatalogView;

    closed spec fn view(&self) -> CatalogView {
        CatalogView { records: self.items.deep_view(), paths: path_map(self.paths.deep_view()) }
    }
}

impl Catalog {
    /// The invariant of a catalog: no record has an empty display text, no
    /// two have the same, and no tag is stored twice.
    pub closed spec fn wf(&self) -> bool {
        self@.well_formed() && tags_distinct(self.paths.deep_view())
    }

    /// A catalog that is in order holds no empty and no repeated display
    /// text.
    pub proof fn lemma_wf(&self)
        requires
            self.wf(),
        ensures
            self@.well_formed(),
    {
    }

    /// A catalog without records or paths.
    pub fn empty() -> (c: Catalog)
        ensures
            c.wf(),
            c@ == CatalogView::empty(),
    {
        let c = Catalog { items: Vec::new(), paths: Vec::new() };
        assert(c.items.deep_view() =~= Seq::empty());
        assert(c.paths.deep_view() =~= Seq::empty());
        c
    }

    /// The number of records.
    pub fn len(&self) -> (n: usize)
        ensures
            n == self@.records.len(),
    {
        self.items.len()
    }

    /// Whether the catalog holds no record.
    pub fn is_empty(&self) -> (b: bool)
        ensures
            b == (self@.records.len() == 0),
    {
        self.items.len() == 0
    }

    /// Whether some record has the display text `text`.
    pub fn contains(&self, text: &str) -> (b: bool)
        ensures
            b == self@.contains(text@),
    {
        let key = text.to_owned();
        self.find(&key).is_some()
    }

    /// Offers `record` together with `image`. The record goes to the end
    /// unless its display text is empty or present already; the path entry
    /// is stored in any case.
    pub fn append(&mut self, record: Record, image: Option<ImagePathEntry>)
        requires
            old(self).wf(),
        ensures
            final(self).wf(),
            final(self)@ == old(self)@.append(record@, image.deep_view()),
    {
        let ghost start = self@;
        if !record.display_text.as_str().is_empty() && self.find(&record.display_text).is_none() {
            proof {
                crate::laws::lemma_append_well_formed(start, record@, None);
                assert(start.append(record@, None).records == start.records.push(record@));
            }
            self.items.push(record);
            assert(self.items.deep_view() =~= start.records.push(record@));
        }
        if let Some(entry) = image {
            self.insert_path(entry);
        }
    }

    /// The display texts, in the catalog's order.
    pub fn all(&self) -> (texts: Vec<String>)
        ensures
            texts.deep_view() == self@.texts(),
    {
        let n: usize = self.items.len();
        let mut texts: Vec<String> = Vec::new();
        let mut i: usize = 0;
        while i < n
            invariant
                i <= n,
                n == self.items@.len(),
                texts@.len() == i,
                forall|k: int| 0 <= k < i ==> (#[trigger] texts@[k])@ == self.items@[k].display_text@,
            decreases n - i,
        {
            texts.push(self.items[i].display_text.clone());
            i = i + 1;
        }
        assert(texts.deep_view() =~= self@.texts());
        texts
    }

    /// The display texts of the records whose origin tag holds at least one
    /// of `keywords` as a substring, in the catalog's order. The match is
    /// case-sensitive.
    pub fn filter_by_origin(&self, keywords: &Vec<String>) -> (texts: Vec<String>)
        ensures
            texts.deep_view() == self@.filter_by_origin(keywords.deep_view()),
    {
        let ghost pred = |r: RecordView| matches_any(r.origin_tag, keywords.deep_view());
        let ghost text_of = |r: RecordView| r.display_text;
        let ghost records = self@.records;
        let n: usize = self.items.len();
        let mut texts: Vec<String> = Vec::new();
        let mut i: usize = 0;
        proof {
            reveal(Seq::filter);
            assert(records.take(0) =~= Seq::empty());
            assert(texts.deep_view() =~= records.take(0).filter(pred).map_values(text_of));
        }
        while i < n
            invariant
                i <= n,
                n == self.items@.len(),
                records == self.items.deep_view(),
                pred == |r: RecordView| matches_any(r.origin_tag, keywords.deep_view()),
                text_of == |r: RecordView| r.display_text,
                texts.deep_view() == records.take(i as int).filter(pred).map_values(text_of),
            decreases n - i,
        {
            let ghost before = texts.deep_view();
            let ghost kept = records.take(i as int).filter(pred);
            proof {
                assert(records.take(i + 1) =~= records.take(i as int).push(records[i as int]));
                kept.lemma_filter_len(pred);
                records.take(i as int).lemma_filter_push(records[i as int], pred);
            }
            if origin_matches(&self.items[i].origin_tag, keywords) {
                texts.push(self.items[i].display_text.clone());
                assert(texts.deep_view() =~= before.push(records[i as int].display_text));
                assert(kept.push(records[i as int]).map_values(text_of) =~= kept.map_values(
                    text_of,
                ).push(records[i as int].display_text));
            }
            i = i + 1;
        }
        assert(records.take(n as int) =~= records);
        texts
    }

    /// Moves the record whose display text is `text` to the front. Nothing
    /// changes where no record has that text.
    pub fn promote(&mut self, text: &str)
        requires
            old(self).wf(),
        ensures
            final(self).wf(),
            final(self)@ == old(self)@.promote(text@),
    {
        let key = text.to_owned();
        let ghost start = self@;
        proof {
            crate::laws::lemma_promote(start, text@);
        }
        if let Some(i) = self.find(&key) {
            let item = self.items.remove(i);
            assert(self.items.deep_view() =~= start.records.remove(i as int));
            self.items.insert(0, item);
            assert(self.items.deep_view() =~= start.records.remove(i as int).insert(
                0,
                start.records[i as int],
            ));
        }
    }

    /// Drops every record whose display text is not among `surviving`. The
    /// others keep their order; the image paths stay.
    pub fn retain_only(&mut self, surviving: &Vec<String>)
        requires
            old(self).wf(),
        ensures
            final(self).wf(),
            final(self)@ == old(self)@.retain_only(surviving.deep_view()),
    {
        let ghost start = self@;
        let ghost pred = |r: RecordView| surviving.deep_view().contains(r.display_text);
        let mut kept: usize = 0;
        let mut seen: usize = 0;
        let total: usize = self.items.len();
        proof {
            reveal(Seq::filter);
            crate::laws::lemma_retain_only(start, surviving.deep_view());
            assert(start.records.take(0) =~= Seq::empty());
            assert(start.records.skip(0) =~= start.records);
            assert(start.records.take(0).filter(pred) + start.records.skip(0) =~= start.records);
        }
        while seen < total
            invariant
                kept <= seen <= total,
                total == start.records.len(),
                pred == |r: RecordView| surviving.deep_view().contains(r.display_text),
                self.paths == old(self).paths,
                kept == start.records.take(seen as int).filter(pred).len(),
                self.items.deep_view() == start.records.take(seen as int).filter(pred)
                    + start.records.skip(seen as int),
            decreases total - seen,
        {
            let ghost done = start.records.take(seen as int);
            let ghost rest = start.records.skip(seen as int);
            proof {
                assert(start.records.take(seen + 1) =~= done.push(start.records[seen as int]));
                done.lemma_filter_push(start.records[seen as int], pred);
                assert(rest.len() == total - seen);
                assert(rest[0] == start.records[seen as int]);
                assert(self.items@.len() == self.items.deep_view().len());
                assert(self.items.deep_view()[kept as int] == start.records[seen as int]);
            }
            if list_contains(surviving, &self.items[kept].display_text) {
                assert(done.filter(pred).push(start.records[seen as int]) + start.records.skip(
                    seen + 1,
                ) =~= done.filter(pred) + rest);
                kept = kept + 1;
            } else {
                let ghost held = self.items.deep_view();
                self.items.remove(kept);
                assert(self.items.deep_view() =~= held.remove(kept as int));
                assert(held.remove(kept as int) =~= done.filter(pred) + start.records.skip(
                    seen + 1,
                ));
            }
            seen = seen + 1;
        }
        proof {
            assert(start.records.take(total as int) =~= start.records);
            assert(start.records.skip(total as int) =~= Seq::empty());
            assert(self.items.deep_view() =~= start.records.filter(pred));
        }
    }

    /// The image path stored for `tag`.
    pub fn lookup_path(&self, tag: &str) -> (r: Option<&String>)
        requires
            self.wf(),
        ensures
            r is Some <==> self@.lookup_path(tag@) is Some,
            r matches Some(path) ==> self@.lookup_path(tag@) == Some(path@),
    {
        let key = tag.to_owned();
        proof {
            lemma_path_map(self.paths.deep_view());
        }
        match self.find_tag(&key) {
            Some(i) => {
                assert(self.paths.deep_view()[i as int].tag == tag@);
                Some(&self.paths[i].path)
            },
            None => None,
        }
    }

    /// The content of the catalog as plain values.
    pub fn snapshot(&self) -> (s: Snapshot)
        requires
            self.wf(),
        ensures
            s@.records == self@.records,
            tags_distinct(s@.paths),
            path_map(s@.paths) == self@.paths,
            restored(s@) == self@,
    {
        let mut records: Vec<Record> = Vec::new();
        let mut i: usize = 0;
        while i < self.items.len()
            invariant
                i <= self.items@.len(),
                records@.len() == i,
                forall|k: int| 0 <= k < i ==> (#[trigger] records@[k])@ == self.items@[k]@,
            decreases self.items@.len() - i,
        {
            records.push(self.items[i].clone());
            i = i + 1;
        }
        let mut paths: Vec<ImagePathEntry> = Vec::new();
        let mut j: usize = 0;
        while j < self.paths.len()
            invariant
                j <= self.paths@.len(),
                paths@.len() == j,
                forall|k: int| 0 <= k < j ==> (#[trigger] paths@[k])@ == self.paths@[k]@,
            decreases self.paths@.len() - j,
        {
            paths.push(self.paths[j].clone());
            j = j + 1;
        }
        let s = Snapshot { records, paths };
        proof {
            assert(s@.records =~= self@.records);
            assert(s@.paths =~= self.paths.deep_view());
            crate::laws::lemma_snapshot_round_trip(self@, s@);
        }
        s
    }

    /// The catalog that a cache held: that of `snapshot`, or the empty one
    /// where there was nothing to read. Records with an empty display text,
    /// or with one that an earlier record has, are left out; of two paths
    /// for one tag the later counts.
    pub fn restore(snapshot: Option<Snapshot>) -> (c: Catalog)
        ensures
            c.wf(),
            c@ == match snapshot.deep_view() {
                Some(s) => restored(s),
                None => CatalogView::empty(),
            },
    {
        let mut c = Catalog::empty();
        if let Some(s) = snapshot {
            let ghost held = s@;
            let Snapshot { records, paths } = s;
            proof {
                assert(held.records.take(0) =~= Seq::empty());
            }
            for record in it: records
                invariant
                    c.wf(),
                    it.seq().len() == held.records.len(),
                    forall|k: int|
                        0 <= k < held.records.len() ==> (#[trigger] it.seq()[k])@
                            == held.records[k],
                    c@ == CatalogView::empty().with_records(held.records.take(it.index() as int)),
            {
                proof {
                    assert(held.records.take(it.index() + 1).drop_last() =~= held.records.take(
                        it.index() as int,
                    ));
                }
                c.append(record, None);
            }
            proof {
                assert(held.records.take(held.records.len() as int) =~= held.records);
                crate::laws::lemma_with_records_well_formed(CatalogView::empty(), held.records);
                assert(held.paths.take(0) =~= Seq::empty());
            }
            for entry in it: paths
                invariant
                    c.wf(),
                    it.seq().len() == held.paths.len(),
                    forall|k: int|
                        0 <= k < held.paths.len() ==> (#[trigger] it.seq()[k])@ == held.paths[k],
                    c@.records == CatalogView::empty().with_records(held.records).records,
                    c@.paths == path_map(held.paths.take(it.index() as int)),
            {
                proof {
                    assert(held.paths.take(it.index() + 1).drop_last() =~= held.paths.take(
                        it.index() as int,
                    ));
                }
                c.insert_path(entry);
            }
            assert(held.paths.take(held.paths.len() as int) =~= held.paths);
        }
        c
    }


    /// The position of the first record whose display text is `text`.
    fn find(&self, text: &String) -> (r: Option<usize>)
        ensures
            r is Some <==> self@.contains(text@),
            r matches Some(i) ==> i < self@.records.len() && i == position_of(self@.records, text@),
    {
        let n: usize = self.items.len();
        let mut i: usize = 0;
        while i < n
            invariant
                i <= n,
                n == self.items@.len(),
                forall|j: int| 0 <= j < i ==> self@.records[j].display_text != text@,
            decreases n - i,
        {
            if self.items[i].display_text == *text {
                proof {
                    lemma_position_of(self@.records, text@);
                    assert(self@.records[i as int].display_text == text@);
                }
                return Some(i);
            }
            i = i + 1;
        }
        proof {
            lemma_position_of(self@.records, text@);
        }
        None
    }

    /// The position of the entry of `tag`.
    fn find_tag(&self, tag: &String) -> (r: Option<usize>)
        ensures
            match r {
                Some(i) => i < self.paths@.len() && self.paths@[i as int].tag@ == tag@,
                None => forall|k: int|
                    0 <= k < self.paths@.len() ==> (#[trigger] self.paths.deep_view()[k]).tag
                        != tag@,
            },
    {
        let n: usize = self.paths.len();
        let mut i: usize = 0;
        while i < n
            invariant
                i <= n,
                n == self.paths@.len(),
                forall|k: int| 0 <= k < i ==> (#[trigger] self.paths.deep_view()[k]).tag != tag@,
            decreases n - i,
        {
            if self.paths[i].tag == *tag {
                return Some(i);
            }
            i = i + 1;
        }
        None
    }

    /// Stores `entry`, in place of the entry of its tag where there is one.
    fn insert_path(&mut self, entry: ImagePathEntry)
        requires
            old(self).wf(),
        ensures
            final(self).wf(),
            final(self)@.records == old(self)@.records,
            final(self)@.paths == old(self)@.paths.insert(entry@.tag, entry@.path),
    {
        let ghost before = self.paths.deep_view();
        match self.find_tag(&entry.tag) {
            Some(i) => {
                proof {
                    assert(before[i as int].tag == entry@.tag);
                    lemma_path_map_update(before, i as int, entry@);
                }
                self.paths.set(i, entry);
                assert(self.paths.deep_view() =~= before.update(i as int, entry@));
                assert(self@.records == old(self)@.records);
            },
            None => {
                proof {
                    lemma_path_map_push(before, entry@);
                }
                self.paths.push(entry);
                assert(self.paths.deep_view() =~= before.push(entry@));
                assert(self@.records == old(self)@.records);
            },
        }
    }
}

} // verus!
