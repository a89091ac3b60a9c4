//! Scanning: the lines of the source files are normalized and parsed, and
//! what they yield is merged into a catalog, or used to prune it.
//!
//! The files are read elsewhere; a scan works on what was read, given as a
//! `SourceListing`. A scan is all or nothing: where one line could not be
//! read or is malformed, the catalog stays as it was.

use vstd::prelude::*;
use crate::catalog::Catalog;
use crate::model::CatalogView;
use crate::normalizer::{diacritics_removed, normalize};
use crate::parser::{parse, parsed, well_formed_line, ParsedLine, ParsedLineView};

verus! {

/// One line of a source file, as it was read.
#[derive(Debug, PartialEq, Eq)]
pub enum SourceLine {
    /// The text of the line, without its line ending.
    Text(String),
    /// The line could not be read.
    Unreadable,
}

impl View for SourceLine {
    type V = Option<Seq<char>>;

    open spec fn view(&self) -> Option<Seq<char>> {
        match self {
            SourceLine::Text(text) => Some(text@),
            SourceLine::Unreadable => None,
        }
    }
}

impl DeepView for SourceLine {
    type V = Option<Seq<char>>;

    open spec fn deep_view(&self) -> Option<Seq<char>> {
        self@
    }
}

/// One source file: the tag under which its records are filed, and its
/// lines in order.
#[derive(Debug, PartialEq, Eq)]
pub struct SourceFile {
    pub origin_tag: String,
    pub lines: Vec<SourceLine>,
}

/// What a `SourceFile` holds.
pub struct SourceFileView {
    pub origin_tag: Seq<char>,
    pub lines: Seq<Option<Seq<char>>>,
}

impl View for SourceFile {
    type V = SourceFileView;

    open spec fn view(&self) -> SourceFileView {
        SourceFileView { origin_tag: self.origin_tag@, lines: self.lines.deep_view() }
    }
}

impl DeepView for SourceFile {
    type V = SourceFileView;

    open spec fn deep_view(&self) -> SourceFileView {
        self@
    }
}

/// What was found under the source directory.
#[derive(Debug, PartialEq, Eq)]
pub enum SourceListing {
    /// The directory could not be listed.
    Unreadable,
    /// The source files, in the order in which they were found.
    Files(Vec<SourceFile>),
}

impl View for SourceListing {
    type V = Option<Seq<SourceFileView>>;

    open spec fn view(&self) -> Option<Seq<SourceFileView>> {
        match self {
            SourceListing::Unreadable => None,
            SourceListing::Files(files) => Some(files.deep_view()),
        }
    }
}

/// Why a scan yields nothing.
#[derive(Debug, Clone, Copy, PartialEq, Eq)]
pub enum ScanError {
    /// The source directory could not be listed.
    SourceDirUnreadable,
    /// A line of a source file could not be read.
    LineReadFailure,
    /// A line of a source file is malformed.
    MalformedLine,
}

/// What a scan did.
#[derive(Debug, Clone, Copy, PartialEq, Eq)]
pub struct ScanReport {
    /// The number of records that the scan added.
    pub added: usize,
}

/// What a normalized line yields: nothing where it is empty, the parsed
/// line where it is well formed, and an error otherwise.
pub open spec fn normalized_outcome(origin_tag: Seq<char>, text: Seq<char>) -> Result<
    Seq<ParsedLineView>,
    ScanError,
> {
    if text.len() == 0 {
        Ok(Seq::empty())
    } else if well_formed_line(text) {
        Ok(seq![parsed(text, origin_tag)])
    } else {
        Err(ScanError::MalformedLine)
    }
}

/// What one line yields: what its normalized text yields, or an error where
/// the line could not be read.
pub open spec fn line_outcome(origin_tag: Seq<char>, line: Option<Seq<char>>) -> Result<
    Seq<ParsedLineView>,
    ScanError,
> {
    match line {
        None => Err(ScanError::LineReadFailure),
        Some(raw) => normalized_outcome(origin_tag, diacritics_removed(raw)),
    }
}

/// What the lines of one file yield, in order; the error of the first line
/// that has one.
pub open spec fn lines_outcome(origin_tag: Seq<char>, lines: Seq<Option<Seq<char>>>) -> Result<
    Seq<ParsedLineView>,
    ScanError,
>
    decreases lines.len(),
{
    if lines.len() == 0 {
        Ok(Seq::empty())
    } else {
        match lines_outcome(origin_tag, lines.drop_last()) {
            Err(e) => Err(e),
            Ok(head) => match line_outcome(origin_tag, lines.last()) {
                Err(e) => Err(e),
                Ok(tail) => Ok(head + tail),
            },
        }
    }
}

/// What the files yield, file by file and line by line; the error of the
/// first line that has one.
pub open spec fn files_outcome(files: Seq<SourceFileView>) -> Result<Seq<ParsedLineView>, ScanError>
    decreases files.len(),
{
    if files.len() == 0 {
        Ok(Seq::empty())
    } else {
        match files_outcome(files.drop_last()) {
            Err(e) => Err(e),
            Ok(head) => match lines_outcome(files.last().origin_tag, files.last().lines) {
                Err(e) => Err(e),
                Ok(tail) => Ok(head + tail),
            },
        }
    }
}

/// What a listing yields.
pub open spec fn listing_outcome(listing: Option<Seq<SourceFileView>>) -> Result<
    Seq<ParsedLineView>,
    ScanError,
> {
    match listing {
        None => Err(ScanError::SourceDirUnreadable),
        Some(files) => files_outcome(files),
    }
}

/// The display texts of parsed lines.
pub open spec fn display_texts(lines: Seq<ParsedLineView>) -> Seq<Seq<char>> {
    lines.map_values(|p: ParsedLineView| p.record.display_text)
}

/// The catalog after a scan of `listing`: every parsed line appended, in
/// order.
pub open spec fn scanned(c: CatalogView, listing: Option<Seq<SourceFileView>>) -> Result<
    CatalogView,
    ScanError,
> {
    match listing_outcome(listing) {
        Err(e) => Err(e),
        Ok(lines) => Ok(c.append_all(lines)),
    }
}

/// The catalog after it was cleaned against `listing`: only the records
/// whose display text some line of the listing yields.
pub open spec fn cleaned(c: CatalogView, listing: Option<Seq<SourceFileView>>) -> Result<
    CatalogView,
    ScanError,
> {
    match listing_outcome(listing) {
        Err(e) => Err(e),
        Ok(lines) => Ok(c.retain_only(display_texts(lines))),
    }
}

/// Parses a line that is normalized already, from the source `origin_tag`.
/// An empty line yields nothing.
pub fn parse_normalized(text: &str, origin_tag: &str) -> (r: Result<Option<ParsedLine>, ScanError>)
    ensures
        match r {
            Ok(Some(line)) => normalized_outcome(origin_tag@, text@) == Ok::<
                Seq<ParsedLineView>,
                ScanError,
            >(seq![line@]),
            Ok(None) => normalized_outcome(origin_tag@, text@) == Ok::<
                Seq<ParsedLineView>,
                ScanError,
            >(Seq::empty()),
            Err(e) => normalized_outcome(origin_tag@, text@) == Err::<
                Seq<ParsedLineView>,
                ScanError,
            >(e),
        },
{
    if text.is_empty() {
        Ok(None)
    } else {
        match parse(text, origin_tag) {
            Err(_) => Err(ScanError::MalformedLine),
            Ok(line) => Ok(Some(line)),
        }
    }
}

/// Normalizes and parses the lines of one file.
fn parse_file(file: &SourceFile) -> (r: Result<Vec<ParsedLine>, ScanError>)
    ensures
        match r {
            Ok(lines) => lines_outcome(file@.origin_tag, file@.lines) == Ok::<
                Seq<ParsedLineView>,
                ScanError,
            >(lines.deep_view()),
            Err(e) => lines_outcome(file@.origin_tag, file@.lines) == Err::<
                Seq<ParsedLineView>,
                ScanError,
            >(e),
        },
{
    let n: usize = file.lines.len();
    let mut out: Vec<ParsedLine> = Vec::new();
    let mut i: usize = 0;
    proof {
        assert(file@.lines.take(0) =~= Seq::empty());
        assert(out.deep_view() =~= Seq::empty());
    }
    while i < n
        invariant
            i <= n,
            n == file.lines@.len(),
            lines_outcome(file@.origin_tag, file@.lines.take(i as int)) == Ok::<
                Seq<ParsedLineView>,
                ScanError,
            >(out.deep_view()),
        decreases n - i,
    {
        let ghost before = out.deep_view();
        proof {
            assert(file@.lines.take(i + 1).drop_last() =~= file@.lines.take(i as int));
            assert(file@.lines.take(i + 1).last() == file.lines@[i as int]@);
            lemma_outcome_prefix(file@.origin_tag, file@.lines, i + 1);
        }
        match &file.lines[i] {
            SourceLine::Unreadable => {
                return Err(ScanError::LineReadFailure);
            },
            SourceLine::Text(raw) => {
                let text = normalize(raw.as_str());
                match parse_normalized(text.as_str(), file.origin_tag.as_str()) {
                    Err(e) => {
                        return Err(e);
                    },
                    Ok(Some(line)) => {
                        out.push(line);
                        assert(out.deep_view() =~= before + seq![line@]);
                    },
                    Ok(None) => {
                        assert(before + Seq::<ParsedLineView>::empty() =~= before);
                    },
                }
            },
        }
        i = i + 1;
    }
    assert(file@.lines.take(n as int) =~= file@.lines);
    Ok(out)
}

/// An error among the first files is the error of all.
proof fn lemma_files_prefix(files: Seq<SourceFileView>, k: int)
    requires
        0 <= k <= files.len(),
    ensures
        files_outcome(files.take(k)) is Err ==> files_outcome(files) == files_outcome(files.take(k)),
    decreases files.len() - k,
{
    if k == files.len() {
        assert(files.take(k) =~= files);
    } else {
        assert(files.take(k + 1).drop_last() =~= files.take(k));
        lemma_files_prefix(files, k + 1);
    }
}

/// Normalizes and parses every line of `listing`, file by file. Lines whose
/// normalized text is empty yield nothing. The first line that could not be
/// read, or that is malformed, ends the work with its error.
pub fn parse_sources(listing: &SourceListing) -> (r: Result<Vec<ParsedLine>, ScanError>)
    ensures
        match r {
            Ok(lines) => listing_outcome(listing@) == Ok::<Seq<ParsedLineView>, ScanError>(
                lines.deep_view(),
            ),
            Err(e) => listing_outcome(listing@) == Err::<Seq<ParsedLineView>, ScanError>(e),
        },
{
    match listing {
        SourceListing::Unreadable => Err(ScanError::SourceDirUnreadable),
        SourceListing::Files(files) => {
            let ghost views = files.deep_view();
            let n: usize = files.len();
            let mut out: Vec<ParsedLine> = Vec::new();
            let mut i: usize = 0;
            proof {
                assert(views.take(0) =~= Seq::empty());
                assert(out.deep_view() =~= Seq::empty());
            }
            while i < n
                invariant
                    i <= n,
                    n == files@.len(),
                    views == files.deep_view(),
                    listing@ == Some(views),
                    files_outcome(views.take(i as int)) == Ok::<Seq<ParsedLineView>, ScanError>(
                        out.deep_view(),
                    ),
                decreases n - i,
            {
                let ghost before = out.deep_view();
                proof {
                    assert(views.take(i + 1).drop_last() =~= views.take(i as int));
                    assert(views.take(i + 1).last() == files@[i as int]@);
                    lemma_files_prefix(views, i + 1);
                }
                match parse_file(&files[i]) {
                    Err(e) => {
                        assert(files_outcome(views.take(i + 1)) == Err::<
                            Seq<ParsedLineView>,
                            ScanError,
                        >(e));
                        return Err(e);
                    },
                    Ok(mut lines) => {
                        let ghost tail = lines.deep_view();
                        out.append(&mut lines);
                        assert(out.deep_view() =~= before + tail);
                    },
                }
                i = i + 1;
            }
            assert(views.take(n as int) =~= views);
            Ok(out)
        },
    }
}

/// A copy of `lines`.
pub fn copy_lines(lines: &Vec<ParsedLine>) -> (copy: Vec<ParsedLine>)
    ensures
        copy.deep_view() == lines.deep_view(),
{
    let n: usize = lines.len();
    let mut copy: Vec<ParsedLine> = Vec::new();
    let mut i: usize = 0;
    while i < n
        invariant
            i <= n,
            n == lines@.len(),
            copy@.len() == i,
            forall|k: int| 0 <= k < i ==> (#[trigger] copy@[k])@ == lines@[k]@,
        decreases n - i,
    {
        copy.push(lines[i].clone());
        i = i + 1;
    }
    assert(copy.deep_view() =~= lines.deep_view());
    copy
}

/// The display texts of `lines`, in order.
pub fn display_texts_of(lines: &Vec<ParsedLine>) -> (texts: Vec<String>)
    ensures
        texts.deep_view() == display_texts(lines.deep_view()),
{
    let n: usize = lines.len();
    let mut texts: Vec<String> = Vec::new();
    let mut i: usize = 0;
    while i < n
        invariant
            i <= n,
            n == lines@.len(),
            texts@.len() == i,
            forall|k: int| 0 <= k < i ==> (#[trigger] texts@[k])@ == lines@[k]@.record.display_text,
        decreases n - i,
    {
        texts.push(lines[i].record.display_text.clone());
        i = i + 1;
    }
    assert(texts.deep_view() =~= display_texts(lines.deep_view()));
    texts
}

impl Catalog {
    /// Appends every line of `lines`, in order.
    pub fn merge(&mut self, lines: Vec<ParsedLine>) -> (added: usize)
        requires
            old(self).wf(),
        ensures
            final(self).wf(),
            final(self)@ == old(self)@.append_all(lines.deep_view()),
            added == final(self)@.records.len() - old(self)@.records.len(),
    {
        let ghost start = self@;
        let ghost all = lines.deep_view();
        let before: usize = self.len();
        proof {
            assert(all.take(0) =~= Seq::empty());
        }
        for line in it: lines
            invariant
                self.wf(),
                it.seq().len() == all.len(),
                forall|k: int| 0 <= k < all.len() ==> (#[trigger] it.seq()[k])@ == all[k],
                self@ == start.append_all(all.take(it.index() as int)),
                before == start.records.len(),
                before <= self@.records.len(),
        {
            proof {
                assert(all.take(it.index() + 1).drop_last() =~= all.take(it.index() as int));
            }
            self.append(line.record, line.image);
        }
        assert(all.take(all.len() as int) =~= all);
        self.len() - before
    }

    /// Merges what `listing` yields into the catalog: each line is
    /// normalized and parsed, and appended unless its display text is empty
    /// or present already. Nothing is removed. Where a line could not be
    /// read or is malformed, the catalog stays as it was.
    pub fn scan(&mut self, listing: &SourceListing) -> (r: Result<ScanReport, ScanError>)
        requires
            old(self).wf(),
        ensures
            final(self).wf(),
            match r {
                Ok(report) => scanned(old(self)@, listing@) == Ok::<CatalogView, ScanError>(
                    final(self)@,
                ) && report.added == final(self)@.records.len() - old(self)@.records.len(),
                Err(e) => scanned(old(self)@, listing@) == Err::<CatalogView, ScanError>(e)
                    && final(self)@ == old(self)@,
            },
    {
        match parse_sources(listing) {
            Err(e) => Err(e),
            Ok(lines) => {
                let added = self.merge(lines);
                Ok(ScanReport { added })
            },
        }
    }

    /// Prunes the catalog against `listing`: a record stays exactly if its
    /// display text is the display text of some line of the listing, as a
    /// scan would store it. Returns the number of records removed. Where a
    /// line could not be read or is malformed, the catalog stays as it was.
    pub fn clean(&mut self, listing: &SourceListing) -> (r: Result<usize, ScanError>)
        requires
            old(self).wf(),
        ensures
            final(self).wf(),
            match r {
                Ok(removed) => cleaned(old(self)@, listing@) == Ok::<CatalogView, ScanError>(
                    final(self)@,
                ) && removed == old(self)@.records.len() - final(self)@.records.len(),
                Err(e) => cleaned(old(self)@, listing@) == Err::<CatalogView, ScanError>(e)
                    && final(self)@ == old(self)@,
            },
    {
        match parse_sources(listing) {
            Err(e) => Err(e),
            Ok(lines) => {
                let before: usize = self.len();
                proof {
                    self.lemma_wf();
                    crate::laws::lemma_retain_only(self@, display_texts(lines.deep_view()));
                }
                self.retain_only(&display_texts_of(&lines));
                Ok(before - self.len())
            },
        }
    }
}

/// A second scan of an unchanged listing changes nothing: the catalog has
/// the same records in the same order, and the same paths.
pub proof fn lemma_rescan_changes_nothing(
    c: CatalogView,
    listing: Option<Seq<SourceFileView>>,
    once: CatalogView,
)
    requires
        c.well_formed(),
        scanned(c, listing) == Ok::<CatalogView, ScanError>(once),
    ensures
        scanned(once, listing) == Ok::<CatalogView, ScanError>(once),
{
    crate::laws::lemma_append_all_twice(c, listing_outcome(listing)->Ok_0);
}

/// A scan adds no record where every display text that the listing yields
/// is present already, in whatever order the files and lines come: the
/// catalog holds the same display texts, as many as before.
pub proof fn lemma_scan_of_known_texts(c: CatalogView, listing: Option<Seq<SourceFileView>>)
    requires
        listing_outcome(listing) is Ok,
        forall|k: int|
            0 <= k < listing_outcome(listing)->Ok_0.len() ==> (#[trigger] display_texts(
                listing_outcome(listing)->Ok_0,
            )[k]).len() == 0 || c.contains(display_texts(listing_outcome(listing)->Ok_0)[k]),
    ensures
        scanned(c, listing) is Ok,
        scanned(c, listing)->Ok_0.records == c.records,
{
    let lines = listing_outcome(listing)->Ok_0;
    assert forall|k: int| 0 <= k < lines.len() implies (#[trigger] lines[k]).record.display_text.len()
        == 0 || c.contains(lines[k].record.display_text) by {
        assert(display_texts(lines)[k] == lines[k].record.display_text);
    }
    crate::laws::lemma_append_all_present(c, lines);
}

/// After a scan the catalog is free of repetition, it holds every text it
/// held, and every non-empty display text that the listing yields.
pub proof fn lemma_scan_holds_all(c: CatalogView, listing: Option<Seq<SourceFileView>>)
    requires
        c.well_formed(),
        scanned(c, listing) is Ok,
    ensures
        scanned(c, listing)->Ok_0.well_formed(),
        forall|text: Seq<char>| c.contains(text) ==> scanned(c, listing)->Ok_0.contains(text),
        forall|text: Seq<char>|
            text.len() > 0 && display_texts(listing_outcome(listing)->Ok_0).contains(text)
                ==> scanned(c, listing)->Ok_0.contains(text),
{
    let lines = listing_outcome(listing)->Ok_0;
    crate::laws::lemma_append_all_well_formed(c, lines);
    assert forall|text: Seq<char>|
        text.len() > 0 && display_texts(lines).contains(text) implies c.append_all(lines).contains(
        text,
    ) by {
        let k = choose|k: int| 0 <= k < lines.len() && display_texts(lines)[k] == text;
        assert(lines[k].record.display_text == text);
    }
}

/// After cleaning, a record is present exactly if it was present and some
/// line of the listing yields its display text: a record whose line is gone
/// from the sources is gone, and a record whose line still stands stays.
pub proof fn lemma_clean_keeps_what_sources_hold(
    c: CatalogView,
    listing: Option<Seq<SourceFileView>>,
)
    requires
        c.well_formed(),
        cleaned(c, listing) is Ok,
    ensures
        cleaned(c, listing)->Ok_0.well_formed(),
        cleaned(c, listing)->Ok_0.paths == c.paths,
        forall|text: Seq<char>|
            cleaned(c, listing)->Ok_0.contains(text) <==> c.contains(text) && display_texts(
                listing_outcome(listing)->Ok_0,
            ).contains(text),
{
    crate::laws::lemma_retain_only(c, display_texts(listing_outcome(listing)->Ok_0));
}

/// Cleaning right after a scan of the same listing removes nothing that the
/// scan found: every non-empty display text of the listing is still there.
pub proof fn lemma_clean_after_scan(c: CatalogView, listing: Option<Seq<SourceFileView>>)
    requires
        c.well_formed(),
        scanned(c, listing) is Ok,
    ensures
        cleaned(scanned(c, listing)->Ok_0, listing) is Ok,
        forall|text: Seq<char>|
            text.len() > 0 && display_texts(listing_outcome(listing)->Ok_0).contains(text)
                ==> cleaned(scanned(c, listing)->Ok_0, listing)->Ok_0.contains(text),
{
    lemma_scan_holds_all(c, listing);
    lemma_clean_keeps_what_sources_hold(scanned(c, listing)->Ok_0, listing);
}

/// An error among the first lines of a file is the error of the file.
proof fn lemma_outcome_prefix(origin_tag: Seq<char>, lines: Seq<Option<Seq<char>>>, k: int)
    requires
        0 <= k <= lines.len(),
    ensures
        lines_outcome(origin_tag, lines.take(k)) is Err ==> lines_outcome(origin_tag, lines)
            == lines_outcome(origin_tag, lines.take(k)),
    decreases lines.len() - k,
{
    if k == lines.len() {
        assert(lines.take(k) =~= lines);
    } else {
        assert(lines.take(k + 1).drop_last() =~= lines.take(k));
        lemma_outcome_prefix(origin_tag, lines, k + 1);
    }
}

} // verus!
