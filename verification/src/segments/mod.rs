//! The segments of a message: the typed header, and every other line as a
//! bag of fields.

pub mod generic;
pub mod msh;

use vstd::prelude::*;
use vstd::string::*;
use crate::fields::FieldView;
use crate::segments::generic::{fields_of, lemma_line_round_trip, sources_of, GenericSegment};
use crate::segments::msh::{header_code, MshSegment, MshView};
use crate::separators::Separators;
use crate::text::{join_text, split_text, text_eq};
use crate::Hl7ParseError;

verus! {

/// What a [`Segment`] holds, as characters.
pub enum SegmentView {
    MSH(MshView),
    Generic(Seq<FieldView>),
}

impl SegmentView {
    /// The line that the segment makes under `delims`: a header is written
    /// as its source, a generic segment as its fields' texts with the field
    /// separator between neighbours.
    pub open spec fn written(self, delims: Separators) -> Seq<char> {
        match self {
            SegmentView::MSH(header) => header.source,
            SegmentView::Generic(fields) => join_text(sources_of(fields), delims.field),
        }
    }
}

/// The segment that `line` is under `delims`, chosen by what its first field
/// holds: the header where that is the header code, a generic segment where
/// it is anything else. `None` where the line opens with the header code and
/// lacks a mandatory header field: such a line is no segment at all.
pub open spec fn segment_of(line: Seq<char>, delims: Separators) -> Option<SegmentView> {
    if split_text(line, delims.field)[0] != header_code() {
        Some(SegmentView::Generic(fields_of(line, delims)))
    } else if MshView::readable(line, delims) {
        Some(SegmentView::MSH(MshView::of(line, delims)))
    } else {
        None
    }
}

/// A single line of a message.
#[derive(Debug, PartialEq)]
pub enum Segment<'a> {
    MSH(MshSegment<'a>),
    Generic(GenericSegment<'a>),
}

impl<'a> View for Segment<'a> {
    type V = SegmentView;

    open spec fn view(&self) -> SegmentView {
        match self {
            Segment::MSH(header) => SegmentView::MSH(header@),
            Segment::Generic(generic) => SegmentView::Generic(generic@),
        }
    }
}

impl<'a> Segment<'a> {
    /// Converts the given line of text into a segment. All or nothing: the
    /// one failure is a header line that lacks a mandatory field, and then
    /// no part of the line is handed out.
    pub fn parse(input: &'a str, delims: &Separators) -> (parsed: Result<Segment<'a>, Hl7ParseError>)
        ensures
            match segment_of(input@, *delims) {
                Some(segment) => parsed matches Ok(s) && s@ == segment,
                None => parsed matches Err(error) && error
                    == Hl7ParseError::MissingRequiredValue(),
            },
    {
        let generic = GenericSegment::parse(input, delims)?;
        proof {
            crate::text::lemma_split_is_clean(input@, delims.field);
            reveal_strlit("MSH");
            assert("MSH"@ =~= header_code());
            assert(generic@[0] == generic.fields[0]@);
        }
        if text_eq(generic.fields[0].value(), "MSH") {
            let header = MshSegment::parse(input, delims)?;
            Ok(Segment::MSH(header))
        } else {
            Ok(Segment::Generic(generic))
        }
    }

    /// The line that this segment makes under `delims`.
    pub fn to_string(&self, delims: &Separators) -> (line: String)
        ensures
            line@ == self@.written(*delims),
    {
        match self {
            Segment::MSH(header) => header.to_string(),
            Segment::Generic(generic) => generic.to_string(delims),
        }
    }
}

/// A line that parses, written out again under the delimiters it was parsed
/// with, is the line, character for character.
pub proof fn lemma_segment_round_trip(line: Seq<char>, delims: Separators)
    ensures
        segment_of(line, delims) matches Some(segment) ==> segment.written(delims) == line,
{
    lemma_line_round_trip(line, delims);
}

} // verus!
