//! A segment that is read as nothing more than its fields in order.

use std::ops::Index;
use vstd::prelude::*;
use vstd::string::*;
use crate::fields::{Field, FieldView};
use crate::paths::{read_number, read_place, token_number, token_place};
use crate::separators::Separators;
use crate::text::{join_text, lemma_join_of_split, push_char, split, split_text};
use crate::Hl7ParseError;

verus! {

/// The fields of the segment that `line` is under `delims`: `line` split on
/// the field separator, each part a field. The segment's code is field 0.
pub open spec fn fields_of(line: Seq<char>, delims: Separators) -> Seq<FieldView> {
    split_text(line, delims.field).map_values(|text: Seq<char>| FieldView::of(text, delims))
}

/// The texts that `fields` were parsed from, in order.
pub open spec fn sources_of(fields: Seq<FieldView>) -> Seq<Seq<char>> {
    fields.map_values(|field: FieldView| field.source)
}

/// The text of the field at `at`, counted from zero with the segment's code
/// as field 0; empty where there is none.
pub open spec fn field_text(fields: Seq<FieldView>, at: int) -> Seq<char> {
    if 0 <= at < fields.len() {
        fields[at].source
    } else {
        Seq::empty()
    }
}

/// What a dotted path addresses in a segment. The first token names a field
/// by its number, the segment's code being field 0, so that `F3` of a `PID`
/// line is what the standard calls PID-3. The tokens after it, where there
/// are any, address a repeat or a component within that field, as
/// [`FieldView::at_tokens`] says. Empty where the first token names no
/// number, where the segment has no field of that number, and where the
/// further tokens address nothing in the field.
pub open spec fn segment_query(fields: Seq<FieldView>, path: Seq<char>) -> Seq<char> {
    let tokens = split_text(path, '.');
    match token_number(tokens[0]) {
        Some(at) if at < fields.len() => {
            if tokens.len() == 1 {
                fields[at as int].source
            } else {
                fields[at as int].at_tokens(tokens.skip(1))
            }
        },
        _ => Seq::empty(),
    }
}

/// A segment without a grammar of its own: an ordered bag of fields, the
/// first of which holds the segment's code. Position is meaning, so the
/// order is that of the line. There is always at least one field.
#[derive(Debug, PartialEq)]
pub struct GenericSegment<'a> {
    pub fields: Vec<Field<'a>>,
}

impl<'a> View for GenericSegment<'a> {
    type V = Seq<FieldView>;

    open spec fn view(&self) -> Seq<FieldView> {
        self.fields@.map_values(|field: Field<'a>| field@)
    }
}

impl<'a> GenericSegment<'a> {
    /// Converts the given line of text into a segment: one field for every
    /// part that the field separator cuts the line into. This never fails.
    pub fn parse(input: &'a str, delims: &Separators) -> (parsed: Result<
        GenericSegment<'a>,
        Hl7ParseError,
    >)
        ensures
            parsed matches Ok(segment) && segment@ == fields_of(input@, *delims) && segment@.len()
                >= 1,
    {
        let texts = split(input, delims.field);
        proof {
            crate::text::lemma_split_is_clean(input@, delims.field);
        }
        let mut fields: Vec<Field<'a>> = Vec::new();
        let mut at: usize = 0;
        while at < texts.len()
            invariant
                at <= texts.len(),
                fields.len() == at,
                forall|k: int|
                    0 <= k < at ==> (#[trigger] fields[k])@ == FieldView::of(texts[k]@, *delims),
            decreases texts.len() - at,
        {
            match Field::parse(texts[at], delims) {
                Ok(field) => {
                    fields.push(field);
                },
                Err(error) => {
                    return Err(error);
                },
            }
            at = at + 1;
        }
        let segment = GenericSegment { fields };
        Ok(segment)
    }

    /// The line that these fields make under `delims`: their texts with the
    /// field separator between neighbours.
    pub fn to_string(&self, delims: &Separators) -> (line: String)
        ensures
            line@ == join_text(sources_of(self@), delims.field),
    {
        let mut line = String::new();
        let mut at: usize = 0;
        while at < self.fields.len()
            invariant
                at <= self.fields.len(),
                line@ == join_text(sources_of(self@).take(at as int), delims.field),
            decreases self.fields.len() - at,
        {
            assert(sources_of(self@).take(at + 1).drop_last() =~= sources_of(self@).take(
                at as int,
            ));
            if at > 0 {
                push_char(&mut line, delims.field);
            }
            line.append(self.fields[at].source);
            at = at + 1;
        }
        assert(sources_of(self@).take(at as int) =~= sources_of(self@));
        line
    }

    /// Resolves a dotted path such as `F3`, `F3.R1` or `F3.R1.C2`. A path
    /// that addresses nothing resolves to the empty text.
    pub fn query(&self, path: &str) -> (text: &'a str)
        ensures
            text@ == segment_query(self@, path@),
    {
        self[path]
    }
}

impl<'a> vstd::std_specs::core::IndexSpecImpl<usize> for GenericSegment<'a> {
    open spec fn index_req(&self, index: &usize) -> bool {
        true
    }
}

impl<'a> Index<usize> for GenericSegment<'a> {
    type Output = &'a str;

    /// The text of the field at `idx`, counted from zero with the segment's
    /// code as field 0; the empty text where there is none.
    fn index(&self, idx: usize) -> (text: &&'a str)
        ensures
            (*text)@ == field_text(self@, idx as int),
    {
        if idx >= self.fields.len() {
            proof {
                reveal_strlit("");
            }
            return &"";
        }
        &self.fields[idx].source
    }
}

impl<'a, 'b> vstd::std_specs::core::IndexSpecImpl<&'b str> for GenericSegment<'a> {
    open spec fn index_req(&self, index: &&'b str) -> bool {
        true
    }
}

impl<'a, 'b> Index<&'b str> for GenericSegment<'a> {
    type Output = &'a str;

    /// What the dotted path `path` addresses; see [`GenericSegment::query`].
    fn index(&self, path: &'b str) -> (text: &&'a str)
        ensures
            (*text)@ == segment_query(self@, path@),
    {
        let tokens = split(path, '.');
        proof {
            reveal_strlit("");
            crate::text::lemma_split_is_clean(path@, '.');
        }
        assert(self@.len() == self.fields.len());
        let at = match read_number(tokens[0]) {
            Some(at) => at,
            None => {
                return &"";
            },
        };
        if at >= self.fields.len() {
            return &"";
        }
        let field = &self.fields[at];
        assert(field@.repeats.len() == field.repeats.len());
        assert(field@.components.len() == field.components.len());
        assert(forall|r: int|
            0 <= r < field.components.len() ==> (#[trigger] field@.components[r]).len()
                == field.components[r].len());
        if tokens.len() == 1 {
            &field.source
        } else if tokens.len() == 2 {
            match read_place(tokens[1]) {
                Some(r) => &field[r],
                None => &"",
            }
        } else if tokens.len() == 3 {
            match (read_place(tokens[1]), read_place(tokens[2])) {
                (Some(r), Some(c)) => &field[(r, c)],
                _ => &"",
            }
        } else {
            &""
        }
    }
}

/// A parsed line written out again under the delimiters it was parsed with
/// is the line, character for character.
pub proof fn lemma_line_round_trip(line: Seq<char>, delims: Separators)
    ensures
        join_text(sources_of(fields_of(line, delims)), delims.field) == line,
{
    lemma_join_of_split(line, delims.field);
    assert(sources_of(fields_of(line, delims)) =~= split_text(line, delims.field));
}

} // verus!
