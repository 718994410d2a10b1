//! The message header segment, the one segment that is read field by field.

use std::ops::Index;
use vstd::prelude::*;
use vstd::string::*;
use crate::fields::{Field, FieldView};
use crate::segments::generic::{field_text, fields_of, GenericSegment};
use crate::separators::Separators;
use crate::text::{split, split_text, text_eq};
use crate::Hl7ParseError;

verus! {

/// The three-letter code that opens a header segment: `MSH`.
pub open spec fn header_code() -> Seq<char> {
    seq!['M', 'S', 'H']
}

/// One more than the number of the last header field that is read: fields
/// are numbered as the standard numbers them, from MSH-1 to MSH-19.
pub open spec fn header_positions() -> int {
    20
}

/// Whether the header field with this number must be present: the date and
/// time of the message, its type, its control id, the processing id and the
/// version id.
pub open spec fn is_mandatory(position: int) -> bool {
    position == 7 || 9 <= position <= 12
}

/// The header field with the given number, read from the parts that the
/// field separator cuts the header line into. The code is part 0 and the
/// encoding characters are part 1, so MSH-n for n of 3 and more is read from
/// part n - 1. MSH-1 and MSH-2 are the delimiters themselves and are never
/// read as fields. An optional field is absent where its part is missing or
/// empty; a mandatory field is absent only where its part is missing.
pub open spec fn header_field(parts: Seq<Seq<char>>, position: int, delims: Separators) -> Option<
    FieldView,
> {
    if 3 <= position < header_positions() && position - 1 < parts.len() && (is_mandatory(position)
        || parts[position - 1].len() > 0) {
        Some(FieldView::of(parts[position - 1], delims))
    } else {
        None
    }
}

/// What an [`MshSegment`] holds, as characters.
pub struct MshView {
    pub source: Seq<char>,
    pub field_separator: char,
    pub encoding_characters: Separators,
    /// The fields by their number in the standard: `fields[n]` is MSH-n.
    /// Places 0, 1 and 2 are never filled.
    pub fields: Seq<Option<FieldView>>,
}

impl MshView {
    /// The header that `source` is under `delims`.
    pub open spec fn of(source: Seq<char>, delims: Separators) -> MshView {
        MshView {
            source,
            field_separator: delims.field,
            encoding_characters: delims,
            fields: Seq::new(
                header_positions() as nat,
                |position: int| header_field(split_text(source, delims.field), position, delims),
            ),
        }
    }

    /// Whether `source` can be read as a header under `delims`: it opens
    /// with the header code and has a part for every mandatory field.
    pub open spec fn readable(source: Seq<char>, delims: Separators) -> bool {
        let parts = split_text(source, delims.field);
        &&& parts[0] == header_code()
        &&& forall|position: int| #[trigger]
            is_mandatory(position) ==> header_field(parts, position, delims) is Some
    }

    /// The header is what reading its source under its own delimiters gives.
    pub open spec fn wf(self) -> bool {
        &&& MshView::readable(self.source, self.encoding_characters)
        &&& self == MshView::of(self.source, self.encoding_characters)
    }

    /// The text of MSH-`position`; empty for MSH-1 and MSH-2, for a field
    /// that is absent and for a number that names no field.
    pub open spec fn field_text(self, position: int) -> Seq<char> {
        if 0 <= position < self.fields.len() {
            match self.fields[position] {
                Some(field) => field.source,
                None => Seq::empty(),
            }
        } else {
            Seq::empty()
        }
    }

    /// The same header with every field parsed anew from its own source
    /// under its own delimiters.
    pub open spec fn reparsed(self) -> MshView {
        MshView {
            fields: self.fields.map_values(
                |field: Option<FieldView>|
                    match field {
                        Some(f) => Some(FieldView::of(f.source, f.delims)),
                        None => None,
                    },
            ),
            ..self
        }
    }
}

/// The two ways of numbering the fields of a header line agree but for a
/// shift of one. Read as a header, the line has its fields numbered as the
/// standard numbers them, where MSH-1 is the field separator itself; read as
/// a generic segment, it has the code as field 0 and what lies between the
/// separators numbered from there. So the text of MSH-n, for n from 3 to 19,
/// is the text of the generic field n - 1.
pub proof fn lemma_header_numbering(line: Seq<char>, delims: Separators, position: int)
    requires
        3 <= position < header_positions(),
    ensures
        MshView::of(line, delims).field_text(position) == field_text(
            fields_of(line, delims),
            position - 1,
        ),
{
}

/// The view of a field that may be absent.
pub open spec fn optional_view<'a>(field: Option<Field<'a>>) -> Option<FieldView> {
    match field {
        Some(f) => Some(f@),
        None => None,
    }
}

/// The header segment: routing and typing data of the whole message, and
/// the declaration of the delimiters that the rest of the message is cut by.
/// Its fields are named and numbered as the standard does.
#[derive(Debug, PartialEq)]
pub struct MshSegment<'a> {
    pub source: &'a str,
    pub msh_1_field_separator: char,
    pub msh_2_encoding_characters: Separators,
    pub msh_3_sending_application: Option<Field<'a>>,
    pub msh_4_sending_facility: Option<Field<'a>>,
    pub msh_5_receiving_application: Option<Field<'a>>,
    pub msh_6_receiving_facility: Option<Field<'a>>,
    pub msh_7_date_time_of_message: Field<'a>,
    pub msh_8_security: Option<Field<'a>>,
    pub msh_9_message_type: Field<'a>,
    pub msh_10_message_control_id: Field<'a>,
    pub msh_11_processing_id: Field<'a>,
    pub msh_12_version_id: Field<'a>,
    pub msh_13_sequence_number: Option<Field<'a>>,
    pub msh_14_continuation_pointer: Option<Field<'a>>,
    pub msh_15_accept_acknowledgment_type: Option<Field<'a>>,
    pub msh_16_application_acknowledgment_type: Option<Field<'a>>,
    pub msh_17_country_code: Option<Field<'a>>,
    pub msh_18_character_set: Option<Field<'a>>,
    pub msh_19_principal_language_of_message: Option<Field<'a>>,
}

impl<'a> View for MshSegment<'a> {
    type V = MshView;

    open spec fn view(&self) -> MshView {
        MshView {
            source: self.source@,
            field_separator: self.msh_1_field_separator,
            encoding_characters: self.msh_2_encoding_characters,
            fields: seq![
                None,
                None,
                None,
                optional_view(self.msh_3_sending_application),
                optional_view(self.msh_4_sending_facility),
                optional_view(self.msh_5_receiving_application),
                optional_view(self.msh_6_receiving_facility),
                Some(self.msh_7_date_time_of_message@),
                optional_view(self.msh_8_security),
                Some(self.msh_9_message_type@),
                Some(self.msh_10_message_control_id@),
                Some(self.msh_11_processing_id@),
                Some(self.msh_12_version_id@),
                optional_view(self.msh_13_sequence_number),
                optional_view(self.msh_14_continuation_pointer),
                optional_view(self.msh_15_accept_acknowledgment_type),
                optional_view(self.msh_16_application_acknowledgment_type),
                optional_view(self.msh_17_country_code),
                optional_view(self.msh_18_character_set),
                optional_view(self.msh_19_principal_language_of_message),
            ],
        }
    }
}

/// The part at `at`, where the line has that many parts.
fn part_at<'a>(parts: &Vec<&'a str>, at: usize) -> (part: Option<&'a str>)
    ensures
        match part {
            Some(text) => at < parts.len() && text@ == parts.deep_view()[at as int],
            None => at >= parts.len(),
        },
{
    if at < parts.len() {
        Some(parts[at])
    } else {
        None
    }
}

/// A field that may be absent, parsed anew from its own source.
fn clone_optional<'a>(field: &Option<Field<'a>>) -> (copy: Option<Field<'a>>)
    ensures
        optional_view(copy) == match optional_view(*field) {
            Some(f) => Some(FieldView::of(f.source, f.delims)),
            None => None,
        },
{
    match field {
        Some(f) => Some(f.clone()),
        None => None,
    }
}

/// The text of a field that may be absent: empty where it is.
fn optional_text<'s, 'a>(field: &'s Option<Field<'a>>) -> (text: &'s &'a str)
    ensures
        (*text)@ == match optional_view(*field) {
            Some(f) => f.source,
            None => Seq::empty(),
        },
{
    match field {
        Some(f) => &f.source,
        None => {
            proof {
                reveal_strlit("");
            }
            &""
        },
    }
}

impl<'a> MshSegment<'a> {
    /// Reads a header line field by field. The line must open with the
    /// header code, and must have a part for each mandatory field, MSH-12
    /// being the last of them; the optional fields after it may be missing.
    pub fn parse(input: &'a str, delims: &Separators) -> (parsed: Result<
        MshSegment<'a>,
        Hl7ParseError,
    >)
        ensures
            MshView::readable(input@, *delims) ==> (parsed matches Ok(header) && header@
                == MshView::of(input@, *delims) && header@.wf()),
            split_text(input@, delims.field)[0] != header_code() ==> (parsed matches Err(
                Hl7ParseError::Generic(reason),
            ) && reason@ == "header segment must start with MSH"@),
            split_text(input@, delims.field)[0] == header_code() && !MshView::readable(
                input@,
                *delims,
            ) ==> (parsed matches Err(error) && error == Hl7ParseError::MissingRequiredValue()),
    {
        let parts = split(input, delims.field);
        proof {
            crate::text::lemma_split_is_clean(input@, delims.field);
            reveal_strlit("MSH");
            assert("MSH"@ =~= header_code());
            assert(is_mandatory(7) && is_mandatory(9) && is_mandatory(10) && is_mandatory(11)
                && is_mandatory(12));
        }
        if !text_eq(parts[0], "MSH") {
            return Err(Hl7ParseError::Generic("header segment must start with MSH".to_owned()));
        }
        let header = MshSegment {
            source: input,
            msh_1_field_separator: delims.field,
            msh_2_encoding_characters: *delims,
            msh_3_sending_application: Field::parse_optional(part_at(&parts, 2), delims)?,
            msh_4_sending_facility: Field::parse_optional(part_at(&parts, 3), delims)?,
            msh_5_receiving_application: Field::parse_optional(part_at(&parts, 4), delims)?,
            msh_6_receiving_facility: Field::parse_optional(part_at(&parts, 5), delims)?,
            msh_7_date_time_of_message: Field::parse_mandatory(part_at(&parts, 6), delims)?,
            msh_8_security: Field::parse_optional(part_at(&parts, 7), delims)?,
            msh_9_message_type: Field::parse_mandatory(part_at(&parts, 8), delims)?,
            msh_10_message_control_id: Field::parse_mandatory(part_at(&parts, 9), delims)?,
            msh_11_processing_id: Field::parse_mandatory(part_at(&parts, 10), delims)?,
            msh_12_version_id: Field::parse_mandatory(part_at(&parts, 11), delims)?,
            msh_13_sequence_number: Field::parse_optional(part_at(&parts, 12), delims)?,
            msh_14_continuation_pointer: Field::parse_optional(part_at(&parts, 13), delims)?,
            msh_15_accept_acknowledgment_type: Field::parse_optional(
                part_at(&parts, 14),
                delims,
            )?,
            msh_16_application_acknowledgment_type: Field::parse_optional(
                part_at(&parts, 15),
                delims,
            )?,
            msh_17_country_code: Field::parse_optional(part_at(&parts, 16), delims)?,
            msh_18_character_set: Field::parse_optional(part_at(&parts, 17), delims)?,
            msh_19_principal_language_of_message: Field::parse_optional(
                part_at(&parts, 18),
                delims,
            )?,
        };
        assert(header@.fields =~= MshView::of(input@, *delims).fields);
        Ok(header)
    }

    /// The line that this header was parsed from.
    pub fn as_str(&self) -> (text: &'a str)
        ensures
            text@ == self@.source,
    {
        self.source
    }

    /// A copy of the line that this header was parsed from.
    pub fn to_string(&self) -> (text: String)
        ensures
            text@ == self@.source,
    {
        self.source.to_owned()
    }

    /// The same line read as a generic segment, under the header's own
    /// delimiters. There the code is field 0 and the encoding characters are
    /// field 1, so MSH-n is field n - 1.
    pub fn as_generic(&self) -> (generic: Result<GenericSegment<'a>, Hl7ParseError>)
        ensures
            generic matches Ok(segment) && segment@ == fields_of(
                self@.source,
                self@.encoding_characters,
            ),
    {
        let delims = self.msh_2_encoding_characters;
        GenericSegment::parse(self.source, &delims)
    }
}

impl<'a> Clone for MshSegment<'a> {
    /// A header over the same line whose fields are parsed anew, each from
    /// its own span: equal to this one wherever this one was parsed.
    fn clone(&self) -> (copy: Self)
        ensures
            copy@ == self@.reparsed(),
            self@.wf() ==> copy@ == self@,
    {
        let copy = MshSegment {
            source: self.source,
            msh_1_field_separator: self.msh_1_field_separator,
            msh_2_encoding_characters: self.msh_2_encoding_characters,
            msh_3_sending_application: clone_optional(&self.msh_3_sending_application),
            msh_4_sending_facility: clone_optional(&self.msh_4_sending_facility),
            msh_5_receiving_application: clone_optional(&self.msh_5_receiving_application),
            msh_6_receiving_facility: clone_optional(&self.msh_6_receiving_facility),
            msh_7_date_time_of_message: self.msh_7_date_time_of_message.clone(),
            msh_8_security: clone_optional(&self.msh_8_security),
            msh_9_message_type: self.msh_9_message_type.clone(),
            msh_10_message_control_id: self.msh_10_message_control_id.clone(),
            msh_11_processing_id: self.msh_11_processing_id.clone(),
            msh_12_version_id: self.msh_12_version_id.clone(),
            msh_13_sequence_number: clone_optional(&self.msh_13_sequence_number),
            msh_14_continuation_pointer: clone_optional(&self.msh_14_continuation_pointer),
            msh_15_accept_acknowledgment_type: clone_optional(
                &self.msh_15_accept_acknowledgment_type,
            ),
            msh_16_application_acknowledgment_type: clone_optional(
                &self.msh_16_application_acknowledgment_type,
            ),
            msh_17_country_code: clone_optional(&self.msh_17_country_code),
            msh_18_character_set: clone_optional(&self.msh_18_character_set),
            msh_19_principal_language_of_message: clone_optional(
                &self.msh_19_principal_language_of_message,
            ),
        };
        assert(copy@.fields =~= self@.reparsed().fields);
        copy
    }
}

impl<'a> vstd::std_specs::core::IndexSpecImpl<usize> for MshSegment<'a> {
    open spec fn index_req(&self, index: &usize) -> bool {
        true
    }
}

impl<'a> Index<usize> for MshSegment<'a> {
    type Output = &'a str;

    /// The text of MSH-`fidx`, numbered as the standard numbers the header's
    /// fields. MSH-1 and MSH-2 are the delimiters themselves, which no span
    /// of the line stands for: they read as the empty text, as do an absent
    /// field and a number that names no field.
    fn index(&self, fidx: usize) -> (text: &&'a str)
        ensures
            (*text)@ == self@.field_text(fidx as int),
    {
        proof {
            reveal_strlit("");
        }
        match fidx {
            1 => &"",
            2 => &"",
            3 => optional_text(&self.msh_3_sending_application),
            4 => optional_text(&self.msh_4_sending_facility),
            5 => optional_text(&self.msh_5_receiving_application),
            6 => optional_text(&self.msh_6_receiving_facility),
            7 => &self.msh_7_date_time_of_message.source,
            8 => optional_text(&self.msh_8_security),
            9 => &self.msh_9_message_type.source,
            10 => &self.msh_10_message_control_id.source,
            11 => &self.msh_11_processing_id.source,
            12 => &self.msh_12_version_id.source,
            13 => optional_text(&self.msh_13_sequence_number),
            14 => optional_text(&self.msh_14_continuation_pointer),
            15 => optional_text(&self.msh_15_accept_acknowledgment_type),
            16 => optional_text(&self.msh_16_application_acknowledgment_type),
            17 => optional_text(&self.msh_17_country_code),
            18 => optional_text(&self.msh_18_character_set),
            19 => optional_text(&self.msh_19_principal_language_of_message),
            _ => &"",
        }
    }
}

} // verus!
