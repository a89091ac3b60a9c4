//! Turns one normalized source line into a record, and for an image line into
//! the path entry that goes with it.

use vstd::prelude::*;
use crate::record::{ImagePathEntry, ImagePathView, Record, RecordView};
use crate::text::{
    after_space, before_space, chars_of, first_space, lemma_first_space, split_once_space, trim,
    trimmed, white_space,
};

verus! {

/// What one source line yields.
#[derive(Debug, PartialEq, Eq)]
pub struct ParsedLine {
    pub record: Record,
    pub image: Option<ImagePathEntry>,
}

/// What a `ParsedLine` holds.
pub struct ParsedLineView {
    pub record: RecordView,
    pub image: Option<ImagePathView>,
}

impl View for ParsedLine {
    type V = ParsedLineView;

    open spec fn view(&self) -> ParsedLineView {
        ParsedLineView {
            record: self.record@,
            image: self.image.deep_view(),
        }
    }
}

impl DeepView for ParsedLine {
    type V = ParsedLineView;

    open spec fn deep_view(&self) -> ParsedLineView {
        self@
    }
}

impl Clone for ParsedLine {
    fn clone(&self) -> (r: Self)
        ensures
            r@ == self@,
    {
        ParsedLine {
            record: self.record.clone(),
            image: match &self.image {
                Some(entry) => Some(entry.clone()),
                None => None,
            },
        }
    }
}

/// Why a line yields nothing.
#[derive(Debug, Clone, Copy, PartialEq, Eq)]
pub enum ParseError {
    /// The line has no space where one is needed: none at all, or none
    /// between the path and the tag of an image line.
    MalformedLine,
}

/// The leading token that marks an image line.
pub open spec fn image_sentinel() -> Seq<char> {
    seq!['I', 'M', 'G']
}

/// The line starts with the sentinel and a space.
pub open spec fn is_image_line(line: Seq<char>) -> bool {
    line.contains(' ') && before_space(line) == image_sentinel()
}

/// The line can be parsed: it splits at a first space, and where the leading
/// token is the sentinel, the remainder splits again into path and tag.
pub open spec fn well_formed_line(line: Seq<char>) -> bool {
    line.contains(' ') && (is_image_line(line) ==> after_space(line).contains(' '))
}

/// The path that an image line names: the second token.
pub open spec fn image_path(line: Seq<char>) -> Seq<char> {
    before_space(after_space(line))
}

/// The tag that an image line names: all that follows the path.
pub open spec fn image_tag(line: Seq<char>) -> Seq<char> {
    after_space(after_space(line))
}

/// The text under which a line is shown and found again: for an image line
/// the sentinel and the tag, for any other the line itself; trimmed.
pub open spec fn display_text(line: Seq<char>) -> Seq<char> {
    if is_image_line(line) {
        trimmed(image_sentinel() + seq![' '] + image_tag(line))
    } else {
        trimmed(line)
    }
}

/// What a well-formed line yields.
pub open spec fn parsed(line: Seq<char>, origin_tag: Seq<char>) -> ParsedLineView {
    ParsedLineView {
        record: RecordView { display_text: display_text(line), origin_tag },
        image: if is_image_line(line) {
            Some(ImagePathView { tag: image_tag(line), path: image_path(line) })
        } else {
            None
        },
    }
}

/// The display text of a line neither starts nor ends with white space.
pub proof fn lemma_display_text_is_trimmed(line: Seq<char>)
    ensures
        trimmed(display_text(line)) == display_text(line),
        display_text(line).len() > 0 ==> !white_space(display_text(line).first()) && !white_space(
            display_text(line).last(),
        ),
{
    if is_image_line(line) {
        crate::text::lemma_trimmed_is_trim(image_sentinel() + seq![' '] + image_tag(line));
    } else {
        crate::text::lemma_trimmed_is_trim(line);
    }
}

/// The display text of an image line names the line's tag again, provided
/// the tag is not empty and does not end in white space: the text is the
/// sentinel, a space and the tag, so the tag that is read off the text is
/// the tag under which the line's path is stored.
pub proof fn lemma_image_text_names_tag(line: Seq<char>)
    requires
        is_image_line(line),
        image_tag(line).len() > 0,
        !white_space(image_tag(line).last()),
    ensures
        display_text(line) == image_sentinel() + seq![' '] + image_tag(line),
        is_image_line(display_text(line)),
        after_space(display_text(line)) == image_tag(line),
{
    let tag = image_tag(line);
    let s = image_sentinel() + seq![' '] + tag;
    assert(s.len() == 4 + tag.len());
    assert(s[0] == 'I' && s[1] == 'M' && s[2] == 'G' && s[3] == ' ');
    assert(s.first() == 'I');
    assert(s.last() == tag.last());
    assert(crate::text::trim_start(s) == s);
    assert(crate::text::trim_end(s) == s);
    lemma_first_space(s);
    assert(first_space(s) == 3);
    assert(s.take(3) =~= image_sentinel());
    assert(s.skip(4) =~= tag);
}

/// Whether `token` is the image sentinel.
pub fn is_sentinel(token: &str) -> (b: bool)
    ensures
        b == (token@ == image_sentinel()),
{
    let chars = chars_of(token);
    let b = chars.len() == 3 && chars[0] == 'I' && chars[1] == 'M' && chars[2] == 'G';
    proof {
        if b {
            assert(token@ =~= image_sentinel());
        }
    }
    b
}

/// Parses one normalized line that came from the source `origin_tag`.
pub fn parse(normalized_line: &str, origin_tag: &str) -> (r: Result<ParsedLine, ParseError>)
    ensures
        r is Ok <==> well_formed_line(normalized_line@),
        r matches Ok(p) ==> p@ == parsed(normalized_line@, origin_tag@),
        r matches Err(e) ==> e == ParseError::MalformedLine,
{
    match split_once_space(normalized_line) {
        None => Err(ParseError::MalformedLine),
        Some((token, rest)) => {
            if is_sentinel(token.as_str()) {
                match split_once_space(rest.as_str()) {
                    None => Err(ParseError::MalformedLine),
                    Some((path, tag)) => {
                        let mut shown = String::from_str("IMG ");
                        shown.append(tag.as_str());
                        proof {
                            reveal_strlit("IMG ");
                            assert(shown@ =~= image_sentinel() + seq![' '] + tag@);
                        }
                        Ok(
                            ParsedLine {
                                record: Record {
                                    display_text: trim(shown.as_str()),
                                    origin_tag: origin_tag.to_owned(),
                                },
                                image: Some(ImagePathEntry { tag, path }),
                            },
                        )
                    },
                }
            } else {
                Ok(
                    ParsedLine {
                        record: Record {
                            display_text: trim(normalized_line),
                            origin_tag: origin_tag.to_owned(),
                        },
                        image: None,
                    },
                )
            }
        },
    }
}

} // verus!
