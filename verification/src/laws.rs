//! What holds of the catalog's operations, proved on the catalog as a
//! mathematical value.

use vstd::prelude::*;
use crate::model::{
    has_text, last_path, matches_any, path_map, position_of, restored, tags_distinct, CatalogView,
    SnapshotView,
};
use crate::parser::ParsedLineView;
use crate::record::{ImagePathView, RecordView};

verus! {

/// `position_of` is the least index whose record has the text.
pub proof fn lemma_position_of(records: Seq<RecordView>, text: Seq<char>)
    ensures
        0 <= position_of(records, text) <= records.len(),
        forall|j: int| 0 <= j < position_of(records, text) ==> records[j].display_text != text,
        position_of(records, text) < records.len() ==> records[position_of(
            records,
            text,
        )].display_text == text,
        has_text(records, text) <==> position_of(records, text) < records.len(),
    decreases records.len(),
{
    if records.len() == 0 || records.first().display_text == text {
        if records.len() > 0 {
            assert(records[0].display_text == text);
        }
    } else {
        let rest = records.drop_first();
        lemma_position_of(rest, text);
        assert forall|j: int| 0 <= j < position_of(records, text) implies records[j].display_text
            != text by {
            if j > 0 {
                assert(records[j] == rest[j - 1]);
            }
        }
        if position_of(records, text) < records.len() {
            assert(records[position_of(records, text)] == rest[position_of(rest, text)]);
        }
    }
    if has_text(records, text) {
        let k = choose|k: int| 0 <= k < records.len() && (#[trigger] records[k]).display_text == text;
        assert(position_of(records, text) <= k);
    }
    if position_of(records, text) < records.len() {
        assert(records[position_of(records, text)].display_text == text);
    }
}

/// Appending keeps a catalog free of empty and of repeated display texts.
pub proof fn lemma_append_well_formed(
    c: CatalogView,
    record: RecordView,
    image: Option<ImagePathView>,
)
    requires
        c.well_formed(),
    ensures
        c.append(record, image).well_formed(),
        record.display_text.len() > 0 ==> c.append(record, image).contains(record.display_text),
        forall|text: Seq<char>| c.contains(text) ==> c.append(record, image).contains(text),
{
    let d = c.append(record, image);
    if record.display_text.len() == 0 || c.contains(record.display_text) {
    } else {
        assert(d.records[c.records.len() as int] == record);
        assert forall|i: int, j: int| 0 <= i < j < d.records.len() implies (
        #[trigger] d.records[i]).display_text != (#[trigger] d.records[j]).display_text by {
            if j == c.records.len() {
                assert(d.records[i] == c.records[i]);
            } else {
                assert(d.records[i] == c.records[i]);
                assert(d.records[j] == c.records[j]);
            }
        }
    }
    assert forall|text: Seq<char>| c.contains(text) implies d.contains(text) by {
        let k = choose|k: int| 0 <= k < c.records.len() && (#[trigger] c.records[k]).display_text == text;
        assert(d.records[k] == c.records[k]);
    }
}

/// However many lines are appended, and in whatever order, no two records of
/// the resulting catalog have the same display text, and none has an empty
/// one. Whatever was present stays present, and every non-empty text that
/// was offered is present afterwards.
pub proof fn lemma_append_all_well_formed(c: CatalogView, lines: Seq<ParsedLineView>)
    requires
        c.well_formed(),
    ensures
        c.append_all(lines).well_formed(),
        forall|text: Seq<char>| c.contains(text) ==> c.append_all(lines).contains(text),
        forall|k: int|
            0 <= k < lines.len() && (#[trigger] lines[k]).record.display_text.len() > 0
                ==> c.append_all(lines).contains(lines[k].record.display_text),
    decreases lines.len(),
{
    if lines.len() > 0 {
        let init = lines.drop_last();
        let mid = c.append_all(init);
        lemma_append_all_well_formed(c, init);
        lemma_append_well_formed(mid, lines.last().record, lines.last().image);
        assert forall|k: int|
            0 <= k < lines.len() && (#[trigger] lines[k]).record.display_text.len()
                > 0 implies c.append_all(lines).contains(lines[k].record.display_text) by {
            if k < init.len() {
                assert(init[k] == lines[k]);
            }
        }
    }
}

/// Starting from the empty catalog, appends alone never produce two records
/// with the same display text.
pub proof fn lemma_appends_never_duplicate(lines: Seq<ParsedLineView>)
    ensures
        CatalogView::empty().append_all(lines).well_formed(),
{
    lemma_append_all_well_formed(CatalogView::empty(), lines);
}

/// Appending lines whose texts are all empty or present already leaves the
/// records as they are.
pub proof fn lemma_append_all_present(c: CatalogView, lines: Seq<ParsedLineView>)
    requires
        forall|k: int|
            0 <= k < lines.len() ==> (#[trigger] lines[k]).record.display_text.len() == 0
                || c.contains(lines[k].record.display_text),
    ensures
        c.append_all(lines).records == c.records,
    decreases lines.len(),
{
    if lines.len() > 0 {
        let init = lines.drop_last();
        assert forall|k: int| 0 <= k < init.len() implies (
        #[trigger] init[k]).record.display_text.len() == 0 || c.contains(
            init[k].record.display_text,
        ) by {
            assert(init[k] == lines[k]);
        }
        lemma_append_all_present(c, init);
        let mid = c.append_all(init);
        let last = lines[lines.len() - 1];
        if last.record.display_text.len() > 0 {
            let k = choose|k: int|
                0 <= k < c.records.len() && (#[trigger] c.records[k]).display_text
                    == last.record.display_text;
            assert(mid.records[k].display_text == last.record.display_text);
        }
    }
}

/// After lines were appended, a tag has the path of the last image line
/// that names it, and where none names it, the path it had.
pub proof fn lemma_append_all_paths(c: CatalogView, lines: Seq<ParsedLineView>, tag: Seq<char>)
    ensures
        c.append_all(lines).lookup_path(tag) == match last_path(lines, tag) {
            Some(path) => Some(path),
            None => c.lookup_path(tag),
        },
    decreases lines.len(),
{
    if lines.len() > 0 {
        lemma_append_all_paths(c, lines.drop_last(), tag);
    }
}

/// Where some line names a tag, the tag has a path after the lines were
/// appended.
pub proof fn lemma_last_path_exists(lines: Seq<ParsedLineView>, k: int)
    requires
        0 <= k < lines.len(),
        lines[k].image is Some,
    ensures
        last_path(lines, lines[k].image->0.tag) is Some,
    decreases lines.len(),
{
    if k < lines.len() - 1 {
        assert(lines.drop_last()[k] == lines[k]);
        lemma_last_path_exists(lines.drop_last(), k);
    }
}

/// Appending the same lines a second time changes nothing: no record is
/// added, and every tag keeps its path.
pub proof fn lemma_append_all_twice(c: CatalogView, lines: Seq<ParsedLineView>)
    requires
        c.well_formed(),
    ensures
        c.append_all(lines).append_all(lines) == c.append_all(lines),
{
    let once = c.append_all(lines);
    let twice = once.append_all(lines);
    lemma_append_all_well_formed(c, lines);
    lemma_append_all_present(once, lines);
    assert forall|tag: Seq<char>| once.lookup_path(tag) == twice.lookup_path(tag) by {
        lemma_append_all_paths(c, lines, tag);
        lemma_append_all_paths(once, lines, tag);
    }
    assert forall|tag: Seq<char>| #[trigger]
        once.paths.dom().contains(tag) == twice.paths.dom().contains(tag) by {
        assert(once.lookup_path(tag) == twice.lookup_path(tag));
    }
    assert forall|tag: Seq<char>| once.paths.dom().contains(tag) implies #[trigger] once.paths[tag]
        == twice.paths[tag] by {
        assert(once.lookup_path(tag) == twice.lookup_path(tag));
    }
    assert(once.paths =~= twice.paths);
}

/// After a selection of a text that is present, that text stands first; the
/// catalog holds the same records as before, still without repetition. A
/// selection of a text that is not present changes nothing.
pub proof fn lemma_promote(c: CatalogView, text: Seq<char>)
    requires
        c.well_formed(),
    ensures
        c.contains(text) ==> c.promote(text).texts().len() > 0 && c.promote(text).texts()[0] == text,
        !c.contains(text) ==> c.promote(text) == c,
        c.promote(text).well_formed(),
        c.promote(text).records.len() == c.records.len(),
        c.promote(text).records.to_multiset() == c.records.to_multiset(),
        forall|other: Seq<char>| c.promote(text).contains(other) <==> c.contains(other),
{
    if c.contains(text) {
        let i = position_of(c.records, text);
        lemma_position_of(c.records, text);
        let removed = c.records.remove(i);
        let d = c.promote(text);
        assert(d.records == removed.insert(0, c.records[i]));
        assert(d.records[0] == c.records[i]);
        assert forall|j: int| 1 <= j < d.records.len() implies d.records[j] == (if j <= i {
            c.records[j - 1]
        } else {
            c.records[j]
        }) by {
            assert(d.records[j] == removed[j - 1]);
        }
        assert forall|a: int, b: int| 0 <= a < b < d.records.len() implies (
        #[trigger] d.records[a]).display_text != (#[trigger] d.records[b]).display_text by {
            let sa = if a == 0 {
                i
            } else if a <= i {
                a - 1
            } else {
                a
            };
            let sb = if b <= i {
                b - 1
            } else {
                b
            };
            assert(d.records[a] == c.records[sa]);
            assert(d.records[b] == c.records[sb]);
            assert(sa != sb);
            if sa < sb {
                assert(c.records[sa].display_text != c.records[sb].display_text);
            } else {
                assert(c.records[sb].display_text != c.records[sa].display_text);
            }
        }
        assert forall|j: int| 0 <= j < d.records.len() implies (
        #[trigger] d.records[j]).display_text.len() > 0 by {
            let sj = if j == 0 {
                i
            } else if j <= i {
                j - 1
            } else {
                j
            };
            assert(d.records[j] == c.records[sj]);
        }
        assert forall|other: Seq<char>| d.contains(other) <==> c.contains(other) by {
            if d.contains(other) {
                let j = choose|j: int|
                    0 <= j < d.records.len() && (#[trigger] d.records[j]).display_text == other;
                let sj = if j == 0 {
                    i
                } else if j <= i {
                    j - 1
                } else {
                    j
                };
                assert(d.records[j] == c.records[sj]);
            }
            if c.contains(other) {
                let j = choose|j: int|
                    0 <= j < c.records.len() && (#[trigger] c.records[j]).display_text == other;
                let tj = if j == i {
                    0
                } else if j < i {
                    j + 1
                } else {
                    j
                };
                assert(d.records[tj] == c.records[j]);
            }
        }
        assert(d.records.to_multiset() == c.records.to_multiset()) by {
            vstd::seq_lib::to_multiset_remove(c.records, i);
            vstd::seq_lib::to_multiset_insert(removed, 0, c.records[i]);
            assert(c.records.to_multiset().remove(c.records[i]).insert(c.records[i])
                =~= c.records.to_multiset()) by {
                c.records.to_multiset_ensures();
                assert(c.records.contains(c.records[i]));
            }
        }
    }
}

/// Filtering by origin yields exactly the display texts of the records whose
/// origin tag holds one of the keywords, and no more texts than there are
/// records.
pub proof fn lemma_filter_by_origin(c: CatalogView, keywords: Seq<Seq<char>>)
    ensures
        c.filter_by_origin(keywords).len() <= c.records.len(),
        forall|text: Seq<char>|
            c.filter_by_origin(keywords).contains(text) <==> exists|i: int|
                0 <= i < c.records.len() && (#[trigger] c.records[i]).display_text == text
                    && matches_any(c.records[i].origin_tag, keywords),
{
    let pred = |r: RecordView| matches_any(r.origin_tag, keywords);
    let kept = c.records.filter(pred);
    let texts = c.filter_by_origin(keywords);
    c.records.lemma_filter_len(pred);
    assert forall|text: Seq<char>| texts.contains(text) implies exists|i: int|
        0 <= i < c.records.len() && (#[trigger] c.records[i]).display_text == text && matches_any(
            c.records[i].origin_tag,
            keywords,
        ) by {
        let j = choose|j: int| 0 <= j < texts.len() && texts[j] == text;
        c.records.lemma_filter_pred(pred, j);
        c.records.lemma_filter_contains_rev(pred, kept[j]);
        assert(c.records.contains(kept[j]));
        let i = choose|i: int| 0 <= i < c.records.len() && c.records[i] == kept[j];
        assert(c.records[i].display_text == text);
    }
    assert forall|text: Seq<char>|
        (exists|i: int|
            0 <= i < c.records.len() && (#[trigger] c.records[i]).display_text == text
                && matches_any(c.records[i].origin_tag, keywords)) implies texts.contains(text) by {
        let i = choose|i: int|
            0 <= i < c.records.len() && (#[trigger] c.records[i]).display_text == text
                && matches_any(c.records[i].origin_tag, keywords);
        c.records.lemma_filter_contains(pred, i);
        let j = choose|j: int| 0 <= j < kept.len() && kept[j] == c.records[i];
        assert(texts[j] == text);
    }
}

/// After pruning, a text is present exactly if it was present and is among
/// the surviving ones. The catalog stays free of repetition and does not
/// grow.
pub proof fn lemma_retain_only(c: CatalogView, surviving: Seq<Seq<char>>)
    requires
        c.well_formed(),
    ensures
        c.retain_only(surviving).well_formed(),
        c.retain_only(surviving).records.len() <= c.records.len(),
        forall|text: Seq<char>|
            c.retain_only(surviving).contains(text) <==> c.contains(text) && surviving.contains(text),
    decreases c.records.len(),
{
    let pred = |r: RecordView| surviving.contains(r.display_text);
    let d = c.retain_only(surviving);
    reveal(Seq::filter);
    if c.records.len() == 0 {
    } else {
        let init = CatalogView { records: c.records.drop_last(), paths: c.paths };
        let last = c.records.last();
        assert forall|i: int| 0 <= i < init.records.len() implies init.records[i] == c.records[i] by {}
        lemma_retain_only(init, surviving);
        let e = init.retain_only(surviving);
        assert forall|text: Seq<char>| d.contains(text) <==> c.contains(text) && surviving.contains(
            text,
        ) by {
            if d.contains(text) {
                let j = choose|j: int|
                    0 <= j < d.records.len() && (#[trigger] d.records[j]).display_text == text;
                if j < e.records.len() {
                    assert(e.records[j] == d.records[j]);
                    assert(e.contains(text));
                    let k = choose|k: int|
                        0 <= k < init.records.len() && (#[trigger] init.records[k]).display_text
                            == text;
                    assert(c.records[k].display_text == text);
                } else {
                    assert(d.records[j] == last);
                    assert(c.records[c.records.len() - 1] == last);
                }
            }
            if c.contains(text) && surviving.contains(text) {
                let k = choose|k: int|
                    0 <= k < c.records.len() && (#[trigger] c.records[k]).display_text == text;
                if k < init.records.len() {
                    assert(init.records[k].display_text == text);
                    assert(e.contains(text));
                    let j = choose|j: int|
                        0 <= j < e.records.len() && (#[trigger] e.records[j]).display_text == text;
                    assert(d.records[j] == e.records[j]);
                } else {
                    assert(pred(last));
                    assert(d.records[d.records.len() - 1] == last);
                }
            }
        }
        assert forall|i: int| 0 <= i < d.records.len() implies (
        #[trigger] d.records[i]).display_text.len() > 0 by {
            if i < e.records.len() {
                assert(d.records[i] == e.records[i]);
            } else {
                assert(d.records[i] == c.records[c.records.len() - 1]);
            }
        }
        assert forall|i: int, j: int| 0 <= i < j < d.records.len() implies (
        #[trigger] d.records[i]).display_text != (#[trigger] d.records[j]).display_text by {
            assert(d.records[i] == e.records[i]);
            if j < e.records.len() {
                assert(d.records[j] == e.records[j]);
            } else {
                assert(d.records[j] == last);
                assert(e.contains(d.records[i].display_text));
                assert(init.contains(d.records[i].display_text));
                let k = choose|k: int|
                    0 <= k < init.records.len() && (#[trigger] init.records[k]).display_text
                        == d.records[i].display_text;
                assert(c.records[k].display_text == d.records[i].display_text);
                assert(c.records[c.records.len() - 1] == last);
            }
        }
    }
}

/// Records without empty or repeated display texts are restored as they are.
pub proof fn lemma_with_records(records: Seq<RecordView>)
    requires
        (CatalogView { records, paths: Map::empty() }).well_formed(),
    ensures
        CatalogView::empty().with_records(records) == (CatalogView { records, paths: Map::empty() }),
    decreases records.len(),
{
    if records.len() > 0 {
        let init = records.drop_last();
        let last = records.last();
        let whole = CatalogView { records, paths: Map::empty() };
        let mid = CatalogView { records: init, paths: Map::empty() };
        assert forall|i: int| 0 <= i < init.len() implies (#[trigger] mid.records[i]).display_text.len()
            > 0 by {
            assert(mid.records[i] == whole.records[i]);
        }
        assert forall|i: int, j: int| 0 <= i < j < init.len() implies (
        #[trigger] mid.records[i]).display_text != (#[trigger] mid.records[j]).display_text by {
            assert(mid.records[i] == whole.records[i]);
            assert(mid.records[j] == whole.records[j]);
        }
        lemma_with_records(init);
        assert(whole.records[records.len() - 1] == last);
        assert(last.display_text.len() > 0);
        if mid.contains(last.display_text) {
            let k = choose|k: int|
                0 <= k < init.len() && (#[trigger] init[k]).display_text == last.display_text;
            assert(whole.records[k] == init[k]);
            assert(whole.records[k].display_text != whole.records[records.len() - 1].display_text);
        }
        assert(init.push(last) =~= records);
    } else {
        assert(records =~= Seq::empty());
    }
}

/// Restoring, from any list of records, yields a catalog without empty or
/// repeated display texts.
pub proof fn lemma_with_records_well_formed(c: CatalogView, records: Seq<RecordView>)
    requires
        c.well_formed(),
    ensures
        c.with_records(records).well_formed(),
        c.with_records(records).paths == c.paths,
    decreases records.len(),
{
    if records.len() > 0 {
        lemma_with_records_well_formed(c, records.drop_last());
        lemma_append_well_formed(c.with_records(records.drop_last()), records.last(), None);
    }
}

/// A catalog that is written out and read back is the same catalog: the same
/// records in the same order, and the same path for each tag.
pub proof fn lemma_snapshot_round_trip(c: CatalogView, snapshot: SnapshotView)
    requires
        c.well_formed(),
        snapshot.records == c.records,
        path_map(snapshot.paths) == c.paths,
    ensures
        restored(snapshot) == c,
{
    lemma_with_records(c.records);
}

/// Where no tag has two entries, the map holds exactly the listed tags, each
/// with its path.
pub proof fn lemma_path_map(entries: Seq<ImagePathView>)
    requires
        tags_distinct(entries),
    ensures
        forall|t: Seq<char>|
            path_map(entries).dom().contains(t) <==> exists|i: int|
                0 <= i < entries.len() && (#[trigger] entries[i]).tag == t,
        forall|i: int|
            0 <= i < entries.len() ==> path_map(entries).dom().contains(
                (#[trigger] entries[i]).tag,
            ) && path_map(entries)[entries[i].tag] == entries[i].path,
    decreases entries.len(),
{
    if entries.len() > 0 {
        let init = entries.drop_last();
        let last = entries.last();
        assert forall|i: int, j: int| 0 <= i < j < init.len() implies (#[trigger] init[i]).tag != (
        #[trigger] init[j]).tag by {
            assert(init[i] == entries[i] && init[j] == entries[j]);
        }
        lemma_path_map(init);
        assert forall|t: Seq<char>| path_map(entries).dom().contains(t) implies exists|i: int|
            0 <= i < entries.len() && (#[trigger] entries[i]).tag == t by {
            if t == last.tag {
                assert(entries[entries.len() - 1].tag == t);
            } else {
                assert(path_map(init).dom().contains(t));
                let i = choose|i: int| 0 <= i < init.len() && (#[trigger] init[i]).tag == t;
                assert(init[i] == entries[i]);
            }
        }
        assert forall|i: int| 0 <= i < entries.len() implies path_map(entries).dom().contains(
            (#[trigger] entries[i]).tag,
        ) && path_map(entries)[entries[i].tag] == entries[i].path by {
            if i < init.len() {
                assert(init[i] == entries[i]);
                assert(entries[i].tag != entries[entries.len() - 1].tag);
            }
        }
    }
}

/// Replacing the entry of a tag replaces the tag's path in the map.
pub proof fn lemma_path_map_update(entries: Seq<ImagePathView>, i: int, entry: ImagePathView)
    requires
        tags_distinct(entries),
        0 <= i < entries.len(),
        entries[i].tag == entry.tag,
    ensures
        tags_distinct(entries.update(i, entry)),
        path_map(entries.update(i, entry)) == path_map(entries).insert(entry.tag, entry.path),
{
    let after = entries.update(i, entry);
    assert forall|a: int, b: int| 0 <= a < b < after.len() implies (#[trigger] after[a]).tag != (
    #[trigger] after[b]).tag by {
        assert(after[a].tag == entries[a].tag);
        assert(after[b].tag == entries[b].tag);
    }
    lemma_path_map(entries);
    lemma_path_map(after);
    let left = path_map(after);
    let right = path_map(entries).insert(entry.tag, entry.path);
    assert forall|t: Seq<char>| left.dom().contains(t) <==> right.dom().contains(t) by {
        if left.dom().contains(t) {
            let k = choose|k: int| 0 <= k < after.len() && (#[trigger] after[k]).tag == t;
            assert(entries[k].tag == t);
        }
        if right.dom().contains(t) && t != entry.tag {
            let k = choose|k: int| 0 <= k < entries.len() && (#[trigger] entries[k]).tag == t;
            assert(after[k].tag == t);
        }
        if t == entry.tag {
            assert(after[i].tag == t);
        }
    }
    assert forall|t: Seq<char>| left.dom().contains(t) implies left[t] == right[t] by {
        let k = choose|k: int| 0 <= k < after.len() && (#[trigger] after[k]).tag == t;
        assert(left[after[k].tag] == after[k].path);
        if k != i {
            assert(after[k] == entries[k]);
            assert(path_map(entries)[entries[k].tag] == entries[k].path);
            if k < i {
                assert(entries[k].tag != entries[i].tag);
            } else {
                assert(entries[i].tag != entries[k].tag);
            }
        }
    }
    assert(left =~= right);
}

/// Adding an entry for a tag that has none keeps the tags distinct.
pub proof fn lemma_path_map_push(entries: Seq<ImagePathView>, entry: ImagePathView)
    requires
        tags_distinct(entries),
        forall|k: int| 0 <= k < entries.len() ==> (#[trigger] entries[k]).tag != entry.tag,
    ensures
        tags_distinct(entries.push(entry)),
        path_map(entries.push(entry)) == path_map(entries).insert(entry.tag, entry.path),
{
    let after = entries.push(entry);
    assert(after.drop_last() =~= entries);
    assert forall|a: int, b: int| 0 <= a < b < after.len() implies (#[trigger] after[a]).tag != (
    #[trigger] after[b]).tag by {
        assert(after[a] == entries[a]);
        if b < entries.len() {
            assert(after[b] == entries[b]);
        }
    }
}

} // verus!
