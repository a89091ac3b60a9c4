//! The catalog as a mathematical value: an ordered sequence of records, most
//! recently selected first, and a map from image tags to image paths. The
//! operations of the catalog are defined here on that value.

use vstd::prelude::*;
use crate::parser::ParsedLineView;
use crate::record::{ImagePathView, RecordView};
use crate::text::is_substring;

verus! {

/// What a catalog holds.
pub struct CatalogView {
    /// The records, most recently selected first.
    pub records: Seq<RecordView>,
    /// The image path of each known tag.
    pub paths: Map<Seq<char>, Seq<char>>,
}

/// The first position in `records` whose display text is `text`, or the
/// length of `records` where none is.
pub open spec fn position_of(records: Seq<RecordView>, text: Seq<char>) -> int
    decreases records.len(),
{
    if records.len() == 0 || records.first().display_text == text {
        0
    } else {
        1 + position_of(records.drop_first(), text)
    }
}

/// Some record of `records` has the display text `text`.
pub open spec fn has_text(records: Seq<RecordView>, text: Seq<char>) -> bool {
    exists|i: int| 0 <= i < records.len() && (#[trigger] records[i]).display_text == text
}

/// `origin_tag` holds at least one of `keywords` as a substring.
pub open spec fn matches_any(origin_tag: Seq<char>, keywords: Seq<Seq<char>>) -> bool {
    exists|k: int| 0 <= k < keywords.len() && is_substring(#[trigger] keywords[k], origin_tag)
}

/// The map that a list of path entries stands for: each tag with the path of
/// its last entry.
pub open spec fn path_map(entries: Seq<ImagePathView>) -> Map<Seq<char>, Seq<char>>
    decreases entries.len(),
{
    if entries.len() == 0 {
        Map::empty()
    } else {
        path_map(entries.drop_last()).insert(entries.last().tag, entries.last().path)
    }
}

/// No tag has two entries.
pub open spec fn tags_distinct(entries: Seq<ImagePathView>) -> bool {
    forall|i: int, j: int|
        0 <= i < j < entries.len() ==> (#[trigger] entries[i]).tag != (#[trigger] entries[j]).tag
}

impl CatalogView {
    /// The catalog without records or paths.
    pub open spec fn empty() -> CatalogView {
        CatalogView { records: Seq::empty(), paths: Map::empty() }
    }

    /// The display texts, in the catalog's order.
    pub open spec fn texts(self) -> Seq<Seq<char>> {
        self.records.map_values(|r: RecordView| r.display_text)
    }

    /// Some record has the display text `text`.
    pub open spec fn contains(self, text: Seq<char>) -> bool {
        has_text(self.records, text)
    }

    /// No display text is empty, and none occurs twice.
    pub open spec fn well_formed(self) -> bool {
        &&& forall|i: int|
            0 <= i < self.records.len() ==> (#[trigger] self.records[i]).display_text.len() > 0
        &&& forall|i: int, j: int|
            0 <= i < j < self.records.len() ==> (#[trigger] self.records[i]).display_text != (
            #[trigger] self.records[j]).display_text
    }

    /// The catalog after `record` was offered together with `image`: the
    /// record goes to the end unless its text is empty or already present;
    /// the path entry is stored in any case, replacing an earlier one for
    /// its tag.
    pub open spec fn append(self, record: RecordView, image: Option<ImagePathView>) -> CatalogView {
        CatalogView {
            records: if record.display_text.len() == 0 || self.contains(record.display_text) {
                self.records
            } else {
                self.records.push(record)
            },
            paths: match image {
                Some(entry) => self.paths.insert(entry.tag, entry.path),
                None => self.paths,
            },
        }
    }

    /// The catalog after each of `lines` was appended, in order.
    pub open spec fn append_all(self, lines: Seq<ParsedLineView>) -> CatalogView
        decreases lines.len(),
    {
        if lines.len() == 0 {
            self
        } else {
            self.append_all(lines.drop_last()).append(lines.last().record, lines.last().image)
        }
    }

    /// The catalog after each of `records` was appended, in order, without
    /// a path entry.
    pub open spec fn with_records(self, records: Seq<RecordView>) -> CatalogView
        decreases records.len(),
    {
        if records.len() == 0 {
            self
        } else {
            self.with_records(records.drop_last()).append(records.last(), None)
        }
    }

    /// The catalog after `text` was selected: its record moves to the front,
    /// the others keep their order. Nothing changes where no record has that
    /// text.
    pub open spec fn promote(self, text: Seq<char>) -> CatalogView {
        if self.contains(text) {
            let i = position_of(self.records, text);
            CatalogView { records: self.records.remove(i).insert(0, self.records[i]), paths: self.paths }
        } else {
            self
        }
    }

    /// The catalog with only the records whose display text is among
    /// `surviving`, in their order.
    pub open spec fn retain_only(self, surviving: Seq<Seq<char>>) -> CatalogView {
        CatalogView {
            records: self.records.filter(|r: RecordView| surviving.contains(r.display_text)),
            paths: self.paths,
        }
    }

    /// The display texts of the records whose origin holds one of
    /// `keywords`, in the catalog's order.
    pub open spec fn filter_by_origin(self, keywords: Seq<Seq<char>>) -> Seq<Seq<char>> {
        self.records.filter(|r: RecordView| matches_any(r.origin_tag, keywords)).map_values(
            |r: RecordView| r.display_text,
        )
    }

    /// The image path stored for `tag`.
    pub open spec fn lookup_path(self, tag: Seq<char>) -> Option<Seq<char>> {
        if self.paths.dom().contains(tag) {
            Some(self.paths[tag])
        } else {
            None
        }
    }
}

/// What is written out of a catalog and read back: the records in order,
/// and the path entries as a list.
pub struct SnapshotView {
    pub records: Seq<RecordView>,
    pub paths: Seq<ImagePathView>,
}

/// The catalog that a snapshot stands for: its records in order, each text
/// once and none empty, and the path of the last entry of each tag.
pub open spec fn restored(snapshot: SnapshotView) -> CatalogView {
    CatalogView {
        records: CatalogView::empty().with_records(snapshot.records).records,
        paths: path_map(snapshot.paths),
    }
}

/// The path that the last image line of `lines` with the tag `tag` names.
pub open spec fn last_path(lines: Seq<ParsedLineView>, tag: Seq<char>) -> Option<Seq<char>>
    decreases lines.len(),
{
    if lines.len() == 0 {
        None
    } else {
        match lines.last().image {
            Some(entry) if entry.tag == tag => Some(entry.path),
            _ => last_path(lines.drop_last(), tag),
        }
    }
}

} // verus!
