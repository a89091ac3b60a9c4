//! A session with the catalog: how it starts from the cache and, where
//! needed, the sources; which candidates are presented to a picker; and for
//! the chosen text what goes to the clipboard.

use vstd::prelude::*;
use crate::catalog::{Catalog, Snapshot};
use crate::model::{restored, CatalogView, SnapshotView};
use crate::parser::{image_sentinel, is_sentinel, ParsedLineView};
use crate::scanner::{
    copy_lines, display_texts, display_texts_of, listing_outcome, parse_sources, ScanError,
    SourceFileView, SourceListing,
};
use crate::text::{after_space, before_space, split_once_space};

verus! {

/// What was asked for at the start of a session.
#[derive(Debug, Clone, Copy, PartialEq, Eq)]
pub struct Request {
    /// Forget the cache and build the catalog anew from the sources.
    pub recreate: bool,
    /// Drop records whose line is gone from the sources.
    pub clean: bool,
    /// Merge new lines of the sources into the catalog.
    pub rescan: bool,
}

/// The catalog with which a session starts: that of the cache, or the empty
/// one where there is no cache or the catalog is to be built anew.
pub open spec fn opened(cached: Option<SnapshotView>, request: Request) -> CatalogView {
    match cached {
        Some(snapshot) if !request.recreate => restored(snapshot),
        _ => CatalogView::empty(),
    }
}

/// Whether the sources have to be read at the start of a session: to fill a
/// catalog that holds nothing, to clean, or to rescan.
pub open spec fn sources_needed(c: CatalogView, request: Request) -> bool {
    c.records.len() == 0 || request.clean || request.rescan
}

/// The catalog after the start of a session, given what the sources yield:
/// an empty catalog is filled by a scan; then the catalog is cleaned, if
/// that was asked for; then the sources are merged once more, if a rescan
/// was asked for.
pub open spec fn refreshed_with(
    c: CatalogView,
    request: Request,
    lines: Seq<ParsedLineView>,
) -> CatalogView {
    let filled = if c.records.len() == 0 {
        c.append_all(lines)
    } else {
        c
    };
    let pruned = if request.clean {
        filled.retain_only(display_texts(lines))
    } else {
        filled
    };
    if request.rescan {
        pruned.append_all(lines)
    } else {
        pruned
    }
}

/// The catalog after the start of a session. Where the sources are not
/// needed, they are not looked at; where they are needed and a line could
/// not be read or is malformed, there is no catalog.
pub open spec fn refreshed(
    c: CatalogView,
    request: Request,
    listing: Option<Seq<SourceFileView>>,
) -> Result<CatalogView, ScanError> {
    if !sources_needed(c, request) {
        Ok(c)
    } else {
        match listing_outcome(listing) {
            Err(e) => Err(e),
            Ok(lines) => Ok(refreshed_with(c, request, lines)),
        }
    }
}

/// A session that starts without a cache, or with a cache that holds no
/// record, scans the sources. A session that starts with records in its
/// cache and asks for nothing more does not depend on the sources.
pub proof fn lemma_start_of_session(
    cached: Option<SnapshotView>,
    request: Request,
    listing: Option<Seq<SourceFileView>>,
)
    requires
        !request.recreate,
        !request.clean,
        !request.rescan,
    ensures
        opened(cached, request).records.len() == 0 ==> refreshed(
            opened(cached, request),
            request,
            listing,
        ) == crate::scanner::scanned(opened(cached, request), listing),
        opened(cached, request).records.len() > 0 ==> refreshed(
            opened(cached, request),
            request,
            listing,
        ) == Ok::<CatalogView, ScanError>(opened(cached, request)),
        cached is None ==> opened(cached, request) == CatalogView::empty(),
{
}

/// What is to be put on the clipboard after a choice.
#[derive(Debug, PartialEq, Eq)]
pub enum ClipboardAction {
    /// Copy this text.
    CopyText(String),
    /// Copy the image at this path, relative to the source directory.
    CopyImage(String),
}

/// What a `ClipboardAction` holds.
pub enum ClipboardActionView {
    CopyText(Seq<char>),
    CopyImage(Seq<char>),
}

impl View for ClipboardAction {
    type V = ClipboardActionView;

    open spec fn view(&self) -> ClipboardActionView {
        match self {
            ClipboardAction::CopyText(text) => ClipboardActionView::CopyText(text@),
            ClipboardAction::CopyImage(path) => ClipboardActionView::CopyImage(path@),
        }
    }
}

/// Why a choice leads to nothing.
#[derive(Debug, Clone, Copy, PartialEq, Eq)]
pub enum SelectError {
    /// The chosen text holds no space, so it has no leading token.
    MalformedChoice,
    /// The chosen text names an image tag for which no path is stored.
    UnknownImage,
}

/// What a choice of `chosen` puts on the clipboard: for a text that starts
/// with the image sentinel, the image whose path is stored for the rest of
/// the text; for any other, the text's leading token.
pub open spec fn selection(c: CatalogView, chosen: Seq<char>) -> Result<
    ClipboardActionView,
    SelectError,
> {
    if !chosen.contains(' ') {
        Err(SelectError::MalformedChoice)
    } else if before_space(chosen) == image_sentinel() {
        match c.lookup_path(after_space(chosen)) {
            Some(path) => Ok(ClipboardActionView::CopyImage(path)),
            None => Err(SelectError::UnknownImage),
        }
    } else {
        Ok(ClipboardActionView::CopyText(before_space(chosen)))
    }
}

/// After lines were appended, the choice of the display text of an image
/// line among them copies an image: the one at the path of the last line
/// with the same tag. This holds of every image line whose tag is not empty
/// and does not end in white space.
pub proof fn lemma_scanned_image_is_found(
    c: CatalogView,
    lines: Seq<ParsedLineView>,
    k: int,
    line: Seq<char>,
    origin_tag: Seq<char>,
)
    requires
        0 <= k < lines.len(),
        lines[k] == crate::parser::parsed(line, origin_tag),
        crate::parser::is_image_line(line),
        crate::parser::image_tag(line).len() > 0,
        !crate::text::white_space(crate::parser::image_tag(line).last()),
    ensures
        crate::model::last_path(lines, crate::parser::image_tag(line)) is Some,
        selection(c.append_all(lines), lines[k].record.display_text) == Ok::<
            ClipboardActionView,
            SelectError,
        >(
            ClipboardActionView::CopyImage(
                crate::model::last_path(lines, crate::parser::image_tag(line))->0,
            ),
        ),
{
    let tag = crate::parser::image_tag(line);
    crate::parser::lemma_image_text_names_tag(line);
    crate::laws::lemma_last_path_exists(lines, k);
    crate::laws::lemma_append_all_paths(c, lines, tag);
}

impl Catalog {
    /// The catalog with which a session starts: what the cache held, or the
    /// empty catalog where nothing could be read from the cache or the
    /// catalog is to be built anew.
    pub fn open(cached: Option<Snapshot>, request: &Request) -> (c: Catalog)
        ensures
            c.wf(),
            c@ == opened(cached.deep_view(), *request),
    {
        if request.recreate {
            Catalog::empty()
        } else {
            Catalog::restore(cached)
        }
    }

    /// Whether the sources have to be read before the catalog can be
    /// presented.
    pub fn needs_sources(&self, request: &Request) -> (b: bool)
        ensures
            b == sources_needed(self@, *request),
    {
        self.is_empty() || request.clean || request.rescan
    }

    /// Brings the catalog up to date with the sources, as `request` asks:
    /// fills it if it is empty, cleans it, merges the sources once more.
    /// Where a line could not be read or is malformed, the catalog stays as
    /// it was.
    pub fn refresh(&mut self, request: &Request, listing: &SourceListing) -> (r: Result<
        (),
        ScanError,
    >)
        requires
            old(self).wf(),
        ensures
            final(self).wf(),
            match r {
                Ok(_) => refreshed(old(self)@, *request, listing@) == Ok::<CatalogView, ScanError>(
                    final(self)@,
                ),
                Err(e) => refreshed(old(self)@, *request, listing@) == Err::<
                    CatalogView,
                    ScanError,
                >(e) && final(self)@ == old(self)@,
            },
    {
        if !self.needs_sources(request) {
            return Ok(());
        }
        match parse_sources(listing) {
            Err(e) => Err(e),
            Ok(lines) => {
                if self.is_empty() {
                    self.merge(copy_lines(&lines));
                }
                if request.clean {
                    self.retain_only(&display_texts_of(&lines));
                }
                if request.rescan {
                    self.merge(lines);
                }
                Ok(())
            },
        }
    }

    /// The texts to present: those whose origin matches one of `keywords`,
    /// or all where no keywords are given.
    pub fn candidates(&self, keywords: &Option<Vec<String>>) -> (texts: Vec<String>)
        ensures
            texts.deep_view() == match keywords {
                Some(words) => self@.filter_by_origin(words.deep_view()),
                None => self@.texts(),
            },
    {
        match keywords {
            Some(words) => self.filter_by_origin(words),
            None => self.all(),
        }
    }

    /// Handles the choice of `chosen`: says what goes to the clipboard, and
    /// moves the chosen record to the front. Where the choice leads to
    /// nothing, the catalog stays as it was.
    pub fn select(&mut self, chosen: &str) -> (r: Result<ClipboardAction, SelectError>)
        requires
            old(self).wf(),
        ensures
            final(self).wf(),
            match r {
                Ok(action) => selection(old(self)@, chosen@) == Ok::<
                    ClipboardActionView,
                    SelectError,
                >(action@) && final(self)@ == old(self)@.promote(chosen@),
                Err(e) => selection(old(self)@, chosen@) == Err::<ClipboardActionView, SelectError>(
                    e,
                ) && final(self)@ == old(self)@,
            },
    {
        match split_once_space(chosen) {
            None => Err(SelectError::MalformedChoice),
            Some((token, rest)) => {
                if is_sentinel(token.as_str()) {
                    let found = match self.lookup_path(rest.as_str()) {
                        Some(path) => Some(path.clone()),
                        None => None,
                    };
                    match found {
                        Some(path) => {
                            self.promote(chosen);
                            Ok(ClipboardAction::CopyImage(path))
                        },
                        None => Err(SelectError::UnknownImage),
                    }
                } else {
                    self.promote(chosen);
                    Ok(ClipboardAction::CopyText(token))
                }
            },
        }
    }
}

} // verus!
