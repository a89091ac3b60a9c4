//! The entries of a catalog: a record, and the path of an image that a record
//! may refer to by its tag.

use vstd::prelude::*;

verus! {

/// One catalog entry: the text that is shown and selected, and the source
/// file it came from.
#[derive(Debug, PartialEq, Eq)]
pub struct Record {
    pub display_text: String,
    pub origin_tag: String,
}

/// What a `Record` holds.
pub struct RecordView {
    pub display_text: Seq<char>,
    pub origin_tag: Seq<char>,
}

impl View for Record {
    type V = RecordView;

    open spec fn view(&self) -> RecordView {
        RecordView { display_text: self.display_text@, origin_tag: self.origin_tag@ }
    }
}

impl DeepView for Record {
    type V = RecordView;

    open spec fn deep_view(&self) -> RecordView {
        self@
    }
}

impl Clone for Record {
    fn clone(&self) -> (r: Self)
        ensures
            r@ == self@,
    {
        Record { display_text: self.display_text.clone(), origin_tag: self.origin_tag.clone() }
    }
}

/// The path of the image that records name by `tag`.
#[derive(Debug, PartialEq, Eq)]
pub struct ImagePathEntry {
    pub tag: String,
    pub path: String,
}

/// What an `ImagePathEntry` holds.
pub struct ImagePathView {
    pub tag: Seq<char>,
    pub path: Seq<char>,
}

impl View for ImagePathEntry {
    type V = ImagePathView;

    open spec fn view(&self) -> ImagePathView {
        ImagePathView { tag: self.tag@, path: self.path@ }
    }
}

impl DeepView for ImagePathEntry {
    type V = ImagePathView;

    open spec fn deep_view(&self) -> ImagePathView {
        self@
    }
}

impl Clone for ImagePathEntry {
    fn clone(&self) -> (r: Self)
        ensures
            r@ == self@,
    {
        ImagePathEntry { tag: self.tag.clone(), path: self.path.clone() }
    }
}

} // verus!
