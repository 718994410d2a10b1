//! Whole messages, held in one of two ways. [`ForwardsMessageParser`] reads
//! a message once, front to back, into a [`Message`]: a tree of spans
//! borrowed from the text, good for many lookups. [`Message2`] owns a copy of
//! the text, keeps no tree and scans the text anew on every lookup, good for
//! a few. For one text the two answer every lookup alike:
//! [`lemma_lookups_agree`].
//!
//! Both cut the text by the delimiters that its own header declares, and by
//! the standard ones where it declares none. Neither types a segment or
//! reads a value as anything but text.

use vstd::prelude::*;
use vstd::string::*;
use crate::offsets::{
    byte_offset, cut, encoded_len, leading, lemma_offset_step, lemma_offsets_grow,
};
use crate::separators::{resolved_separators, standard_separators, Separators};
use crate::text::{
    join_text, lemma_join_of_split, lemma_split_is_clean, push_char, split, split_text,
};

verus! {

/// What a [`Segment2`] holds, as characters.
pub struct SegmentTree {
    pub source: Seq<char>,
    /// `fields[f][r][c]` is the text of component `c` of repeat `r` of field `f`.
    pub fields: Seq<Seq<Seq<Seq<char>>>>,
}

/// What a [`Message`] holds, as characters.
pub struct MessageTree {
    pub delims: Separators,
    pub segments: Seq<SegmentTree>,
}

impl SegmentTree {
    /// The fields are what reading the line under `delims` gives.
    pub open spec fn wf(self, delims: Separators) -> bool {
        self == segment_tree(self.source, delims)
    }
}

impl MessageTree {
    /// Every segment is what reading its line under the message's
    /// delimiters gives.
    pub open spec fn wf(self) -> bool {
        forall|s: int|
            0 <= s < self.segments.len() ==> (#[trigger] self.segments[s]).wf(self.delims)
    }

    /// The lines that the segments were read from, in order.
    pub open spec fn lines(self) -> Seq<Seq<char>> {
        self.segments.map_values(|segment: SegmentTree| segment.source)
    }

    /// What a lookup by segment code and field number finds in the tree: in
    /// the first segment whose line opens with `code`, the field at `field`
    /// written out with the message's delimiters, the code itself being
    /// field 0. Empty where no segment opens with `code` and where the
    /// segment has no such field.
    pub open spec fn field(self, code: Seq<char>, field: int) -> Seq<char> {
        let segment = first_with_code(self.lines(), code);
        if segment < self.segments.len() && 0 <= field < self.segments[segment].fields.len() {
            field_written(self.segments[segment].fields[field], self.delims)
        } else {
            Seq::empty()
        }
    }
}

/// One repeat of a field: its components in order, each a span of the
/// message. The parser leaves a repeat whole, as its one component.
#[derive(Debug, PartialEq)]
pub struct Repeat2<'a> {
    pub components: Vec<&'a str>,
}

/// A single value between two field separators: its repeats in order.
#[derive(Debug, PartialEq)]
pub struct Field2<'a> {
    pub repeats: Vec<Repeat2<'a>>,
}

/// A single line of a message: the span of the line, and its fields in
/// order, the segment's code being the first.
#[derive(Debug, PartialEq)]
pub struct Segment2<'a> {
    pub source: &'a str,
    pub fields: Vec<Field2<'a>>,
}

/// A whole message as a tree whose leaves are spans of the text it was read
/// from. That text has to outlive the tree.
#[derive(Debug, PartialEq)]
pub struct Message<'a> {
    pub delims: Separators,
    pub segments: Vec<Segment2<'a>>,
}

/// A whole message as a copy of its text and nothing else.
#[derive(Debug, PartialEq)]
pub struct Message2 {
    pub input: String,
}

/// Reads a whole message in one pass, front to back. It is expected that a
/// single message is passed at a time.
pub struct ForwardsMessageParser {}

impl<'a> View for Repeat2<'a> {
    type V = Seq<Seq<char>>;

    open spec fn view(&self) -> Seq<Seq<char>> {
        self.components.deep_view()
    }
}

impl<'a> View for Field2<'a> {
    type V = Seq<Seq<Seq<char>>>;

    open spec fn view(&self) -> Seq<Seq<Seq<char>>> {
        self.repeats@.map_values(|repeat: Repeat2<'a>| repeat@)
    }
}

impl<'a> View for Segment2<'a> {
    type V = SegmentTree;

    open spec fn view(&self) -> SegmentTree {
        SegmentTree {
            source: self.source@,
            fields: self.fields@.map_values(|field: Field2<'a>| field@),
        }
    }
}

impl<'a> View for Message<'a> {
    type V = MessageTree;

    open spec fn view(&self) -> MessageTree {
        MessageTree {
            delims: self.delims,
            segments: self.segments@.map_values(|segment: Segment2<'a>| segment@),
        }
    }
}

impl View for Message2 {
    type V = Seq<char>;

    open spec fn view(&self) -> Seq<char> {
        self.input@
    }
}

/// Whether `line` opens with the three characters `code`.
pub open spec fn has_code(line: Seq<char>, code: Seq<char>) -> bool {
    line.len() >= 3 && line.take(3) == code
}

/// The place of the first of `lines` that opens with `code`; the number of
/// lines where none does.
pub open spec fn first_with_code(lines: Seq<Seq<char>>, code: Seq<char>) -> int
    decreases lines.len(),
{
    if lines.len() == 0 || has_code(lines[0], code) {
        0
    } else {
        1 + first_with_code(lines.drop_first(), code)
    }
}

/// The part at `at`; empty where there is none.
pub open spec fn part_or_empty(parts: Seq<Seq<char>>, at: int) -> Seq<char> {
    if 0 <= at < parts.len() {
        parts[at]
    } else {
        Seq::empty()
    }
}

/// The lines of a message: what the segment terminator cuts the text into,
/// but for an empty rest after the last terminator, which is no line.
pub open spec fn message_lines(input: Seq<char>, delims: Separators) -> Seq<Seq<char>> {
    let lines = split_text(input, delims.segment);
    if lines.last().len() == 0 {
        lines.drop_last()
    } else {
        lines
    }
}

/// What a lookup by segment code and field number finds in the text of a
/// message: in the first line that opens with `code`, the part at `field`
/// that the field separator cuts the line into, the code itself being part
/// 0. Empty where no line opens with `code` and where the line has no such
/// part.
pub open spec fn field_in_text(input: Seq<char>, code: Seq<char>, field: int) -> Seq<char> {
    let delims = resolved_separators(Some(input));
    let lines = split_text(input, delims.segment);
    let line = first_with_code(lines, code);
    if line < lines.len() {
        part_or_empty(split_text(lines[line], delims.field), field)
    } else {
        Seq::empty()
    }
}

/// The components of a repeat written out with `delims`.
pub open spec fn repeat_written(components: Seq<Seq<char>>, delims: Separators) -> Seq<char> {
    join_text(components, delims.component)
}

/// The repeats of a field written out with `delims`.
pub open spec fn field_written(repeats: Seq<Seq<Seq<char>>>, delims: Separators) -> Seq<char> {
    join_text(
        repeats.map_values(|components: Seq<Seq<char>>| repeat_written(components, delims)),
        delims.repeat,
    )
}

/// The lines that `segments` were read from, in order.
pub open spec fn lines_of<'a>(segments: Seq<Segment2<'a>>) -> Seq<Seq<char>> {
    segments.map_values(|segment: Segment2<'a>| segment.source@)
}

/// The tree of a field with the text `text`: one repeat for every part that
/// the repeat separator cuts it into, each holding its text whole as its one
/// component.
pub open spec fn field_tree(text: Seq<char>, delims: Separators) -> Seq<Seq<Seq<char>>> {
    split_text(text, delims.repeat).map_values(|repeat: Seq<char>| seq![repeat])
}

/// The tree of the segment that `line` is.
pub open spec fn segment_tree(line: Seq<char>, delims: Separators) -> SegmentTree {
    SegmentTree {
        source: line,
        fields: split_text(line, delims.field).map_values(
            |field: Seq<char>| field_tree(field, delims),
        ),
    }
}

/// The tree of the message that `input` is.
pub open spec fn message_tree(input: Seq<char>) -> MessageTree {
    let delims = resolved_separators(Some(input));
    MessageTree {
        delims,
        segments: message_lines(input, delims).map_values(
            |line: Seq<char>| segment_tree(line, delims),
        ),
    }
}

/// The first line that opens with the code is the one before which none does.
pub proof fn lemma_first_with_code(lines: Seq<Seq<char>>, code: Seq<char>, at: int)
    requires
        0 <= at <= lines.len(),
        forall|k: int| 0 <= k < at ==> !has_code(#[trigger] lines[k], code),
        at < lines.len() ==> has_code(lines[at], code),
    ensures
        first_with_code(lines, code) == at,
    decreases lines.len(),
{
    if at > 0 {
        let rest = lines.drop_first();
        assert forall|k: int| 0 <= k < at - 1 implies !has_code(#[trigger] rest[k], code) by {
            assert(rest[k] == lines[k + 1]);
        }
        lemma_first_with_code(rest, code, at - 1);
    }
}

/// What [`first_with_code`] finds: no line before it opens with the code,
/// and the line at it does, where there is one.
pub proof fn lemma_first_with_code_found(lines: Seq<Seq<char>>, code: Seq<char>)
    ensures
        0 <= first_with_code(lines, code) <= lines.len(),
        forall|k: int|
            0 <= k < first_with_code(lines, code) ==> !has_code(#[trigger] lines[k], code),
        first_with_code(lines, code) < lines.len() ==> has_code(
            lines[first_with_code(lines, code)],
            code,
        ),
    decreases lines.len(),
{
    if lines.len() > 0 && !has_code(lines[0], code) {
        let rest = lines.drop_first();
        lemma_first_with_code_found(rest, code);
        assert forall|k: int| 0 <= k < first_with_code(lines, code) implies !has_code(
            #[trigger] lines[k],
            code,
        ) by {
            if k > 0 {
                assert(lines[k] == rest[k - 1]);
            }
        }
    }
}

/// No level of the tree of a message is empty: every segment has a field,
/// every field has a repeat, and every repeat has its one component.
pub proof fn lemma_message_tree_is_full(input: Seq<char>)
    ensures
        forall|s: int|
            0 <= s < message_tree(input).segments.len() ==> (
            #[trigger] message_tree(input).segments[s]).fields.len() >= 1,
        forall|s: int, f: int|
            0 <= s < message_tree(input).segments.len() && 0 <= f < message_tree(
                input,
            ).segments[s].fields.len() ==> (
            #[trigger] message_tree(input).segments[s].fields[f]).len() >= 1,
        forall|s: int, f: int, r: int|
            0 <= s < message_tree(input).segments.len() && 0 <= f < message_tree(
                input,
            ).segments[s].fields.len() && 0 <= r < message_tree(input).segments[s].fields[f].len()
                ==> (#[trigger] message_tree(input).segments[s].fields[f][r]).len() == 1,
{
    let delims = resolved_separators(Some(input));
    let lines = message_lines(input, delims);
    let tree = message_tree(input);
    assert forall|s: int| 0 <= s < tree.segments.len() implies (#[trigger] tree.segments[s]).fields.len()
        >= 1 by {
        lemma_split_is_clean(lines[s], delims.field);
    }
    assert forall|s: int, f: int|
        0 <= s < tree.segments.len() && 0 <= f < tree.segments[s].fields.len() implies (
    #[trigger] tree.segments[s].fields[f]).len() >= 1 by {
        lemma_split_is_clean(split_text(lines[s], delims.field)[f], delims.repeat);
    }
}

/// A field read into a tree and written out again with the delimiters it was
/// read with is the text it was read from.
pub proof fn lemma_field_tree_round_trip(text: Seq<char>, delims: Separators)
    ensures
        field_written(field_tree(text, delims), delims) == text,
{
    let repeats = split_text(text, delims.repeat);
    let written = field_tree(text, delims).map_values(
        |components: Seq<Seq<char>>| repeat_written(components, delims),
    );
    assert(written =~= repeats);
    lemma_join_of_split(text, delims.repeat);
}

/// The two ways of holding a message answer alike: for every text, segment
/// code and field number, the lookup in the tree that the text is read into
/// finds what the scan of the text itself finds.
pub proof fn lemma_lookups_agree(input: Seq<char>, code: Seq<char>, field: int)
    ensures
        message_tree(input).field(code, field) == field_in_text(input, code, field),
{
    let delims = resolved_separators(Some(input));
    let all = split_text(input, delims.segment);
    let lines = message_lines(input, delims);
    let tree = message_tree(input);
    lemma_split_is_clean(input, delims.segment);
    lemma_first_with_code_found(all, code);
    assert(tree.lines() =~= lines);
    let found = first_with_code(all, code);
    if found < all.len() {
        assert forall|k: int| 0 <= k < found implies !has_code(#[trigger] lines[k], code) by {
            assert(lines[k] == all[k]);
        }
        lemma_first_with_code(lines, code, found);
        let line = all[found];
        let parts = split_text(line, delims.field);
        if 0 <= field < parts.len() {
            lemma_field_tree_round_trip(parts[field], delims);
        }
    } else {
        assert forall|k: int| 0 <= k < lines.len() implies !has_code(#[trigger] lines[k], code) by {
            assert(lines[k] == all[k]);
        }
        lemma_first_with_code(lines, code, lines.len() as int);
    }
}

impl<'a> Clone for Repeat2<'a> {
    /// A repeat with the same spans in a vector of its own.
    fn clone(&self) -> (copy: Self)
        ensures
            copy.components@ == self.components@,
    {
        let mut components: Vec<&'a str> = Vec::new();
        let mut at: usize = 0;
        while at < self.components.len()
            invariant
                at <= self.components.len(),
                components@ == self.components@.take(at as int),
            decreases self.components.len() - at,
        {
            components.push(self.components[at]);
            at = at + 1;
        }
        Repeat2 { components }
    }
}

impl<'a> Clone for Field2<'a> {
    /// A field with the same spans in vectors of its own.
    fn clone(&self) -> (copy: Self)
        ensures
            copy@ == self@,
    {
        let mut repeats: Vec<Repeat2<'a>> = Vec::new();
        let mut at: usize = 0;
        while at < self.repeats.len()
            invariant
                at <= self.repeats.len(),
                repeats.len() == at,
                forall|k: int| 0 <= k < at ==> (#[trigger] repeats[k])@ == self.repeats[k]@,
            decreases self.repeats.len() - at,
        {
            let repeat = self.repeats[at].clone();
            repeats.push(repeat);
            at = at + 1;
        }
        Field2 { repeats }
    }
}

/// Whether `line` opens with the three characters `code`.
pub fn opens_with(line: &str, code: &str) -> (yes: bool)
    ensures
        yes == has_code(line@, code@),
{
    let wanted = leading(code, 4);
    if wanted.len() != 3 {
        return false;
    }
    assert(code@ =~= wanted@);
    let head = leading(line, 3);
    if head.len() != 3 {
        return false;
    }
    assert(line@.take(3) == code@ <==> head@ =~= wanted@);
    head[0] == wanted[0] && head[1] == wanted[1] && head[2] == wanted[2]
}

impl<'a> Repeat2<'a> {
    /// All components of this repeat as a single text, with the component
    /// separator of `delims` between neighbours.
    pub fn get_as_string_with(&self, delims: &Separators) -> (text: String)
        ensures
            text@ == repeat_written(self@, *delims),
    {
        crate::text::join(&self.components, delims.component)
    }

    /// All components of this repeat as a single text. If several are
    /// present they are joined with the standard `^` separator.
    pub fn get_as_string(&self) -> (text: String)
        ensures
            text@ == repeat_written(self@, standard_separators()),
    {
        self.get_as_string_with(&Separators::default())
    }
}

impl<'a> Field2<'a> {
    /// All repeats of this field as a single text, with the repeat and
    /// component separators of `delims` between neighbours.
    pub fn get_all_as_string_with(&self, delims: &Separators) -> (text: String)
        ensures
            text@ == field_written(self@, *delims),
    {
        let ghost written = self@.map_values(
            |components: Seq<Seq<char>>| repeat_written(components, *delims),
        );
        let mut text = String::new();
        let mut at: usize = 0;
        while at < self.repeats.len()
            invariant
                at <= self.repeats.len(),
                written == self@.map_values(
                    |components: Seq<Seq<char>>| repeat_written(components, *delims),
                ),
                text@ == join_text(written.take(at as int), delims.repeat),
            decreases self.repeats.len() - at,
        {
            assert(written.take(at + 1).drop_last() =~= written.take(at as int));
            if at > 0 {
                push_char(&mut text, delims.repeat);
            }
            let repeat = self.repeats[at].get_as_string_with(delims);
            text.append(repeat.as_str());
            at = at + 1;
        }
        assert(written.take(at as int) =~= written);
        text
    }

    /// All repeats of this field as a single text, joined with the standard
    /// `~` separator, their components with the standard `^`.
    pub fn get_all_as_string(&self) -> (text: String)
        ensures
            text@ == field_written(self@, standard_separators()),
    {
        self.get_all_as_string_with(&Separators::default())
    }
}

/// How the parts of a text change as the text grows by one character: a
/// delimiter closes the part in progress and opens an empty one, any other
/// character extends the part in progress.
proof fn lemma_split_grows(
    text: Seq<char>,
    start: int,
    part_start: int,
    at: int,
    delimiter: char,
    done: Seq<Seq<char>>,
)
    requires
        0 <= start <= part_start <= at < text.len(),
        split_text(text.subrange(start, at), delimiter) == done.push(
            text.subrange(part_start, at),
        ),
    ensures
        text[at] == delimiter ==> split_text(text.subrange(start, at + 1), delimiter) == done.push(
            text.subrange(part_start, at),
        ).push(text.subrange(at + 1, at + 1)),
        text[at] != delimiter ==> split_text(text.subrange(start, at + 1), delimiter) == done.push(
            text.subrange(part_start, at + 1),
        ),
{
    assert(text.subrange(start, at + 1).drop_last() =~= text.subrange(start, at));
    if text[at] == delimiter {
        assert(text.subrange(at + 1, at + 1) =~= Seq::<char>::empty());
    } else {
        assert(text.subrange(part_start, at).push(text[at]) =~= text.subrange(part_start, at + 1));
    }
}

impl ForwardsMessageParser {
    /// Parses an entire message into its segments, fields and repeats: one
    /// segment for every line that a terminator ends, and one more for what
    /// follows the last terminator unless that is empty.
    pub fn parse_message<'a>(&mut self, input: &'a String) -> (message: Message<'a>)
        ensures
            message@ == message_tree(input@),
            message@.wf(),
    {
        let text: &'a str = input.as_str();
        let delims = Separators::resolve(Some(text));
        let total = text.as_bytes().len();
        let mut segments: Vec<Segment2<'a>> = Vec::new();
        let mut fields: Vec<Field2<'a>> = Vec::new();
        let mut repeats: Vec<Repeat2<'a>> = Vec::new();
        let mut line_start: usize = 0;
        let mut repeat_start: usize = 0;
        let mut at: usize = 0;
        let ghost mut line_from: int = 0;
        let ghost mut field_from: int = 0;
        let ghost mut repeat_from: int = 0;
        let ghost mut done_fields: Seq<Seq<char>> = Seq::empty();
        let ghost mut done_repeats: Seq<Seq<char>> = Seq::empty();
        assert(text@.subrange(0, 0) =~= Seq::<char>::empty());
        for c in chars: text.chars()
            invariant
                chars.seq() == text@,
                total == text.spec_bytes().len(),
                delims.distinct(),
                0 <= line_from <= field_from <= repeat_from <= chars.index(),
                line_start == byte_offset(text@, line_from),
                repeat_start == byte_offset(text@, repeat_from),
                at == byte_offset(text@, chars.index()),
                at <= total,
                split_text(text@.subrange(0, chars.index()), delims.segment) == lines_of(
                    segments@,
                ).push(text@.subrange(line_from, chars.index())),
                forall|k: int|
                    0 <= k < segments.len() ==> (#[trigger] segments[k])@ == segment_tree(
                        segments[k].source@,
                        delims,
                    ),
                split_text(text@.subrange(line_from, chars.index()), delims.field)
                    == done_fields.push(text@.subrange(field_from, chars.index())),
                fields.len() == done_fields.len(),
                forall|k: int|
                    0 <= k < fields.len() ==> (#[trigger] fields[k])@ == field_tree(
                        done_fields[k],
                        delims,
                    ),
                split_text(text@.subrange(field_from, chars.index()), delims.repeat)
                    == done_repeats.push(text@.subrange(repeat_from, chars.index())),
                repeats.len() == done_repeats.len(),
                forall|k: int|
                    0 <= k < repeats.len() ==> (#[trigger] repeats[k])@ == seq![done_repeats[k]],
        {
            let ghost here = chars.index();
            let ghost line = text@.subrange(line_from, here);
            let ghost field = text@.subrange(field_from, here);
            let ghost repeat = text@.subrange(repeat_from, here);
            let ghost next = text@.subrange(here + 1, here + 1);
            proof {
                assert(next =~= Seq::<char>::empty());
                lemma_offset_step(text@, here);
                lemma_split_grows(text@, 0, line_from, here, delims.segment, lines_of(segments@));
                lemma_split_grows(text@, line_from, field_from, here, delims.field, done_fields);
                lemma_split_grows(text@, field_from, repeat_from, here, delims.repeat, done_repeats);
            }
            let width = encoded_len(c);
            if c == delims.repeat {
                self.finish_repeat(
                    repeat_start,
                    at,
                    text,
                    &mut repeats,
                    Ghost(repeat_from),
                    Ghost(here),
                );
                repeat_start = at + width;
                proof {
                    repeat_from = here + 1;
                    done_repeats = done_repeats.push(repeat);
                }
            } else if c == delims.field {
                self.finish_repeat(
                    repeat_start,
                    at,
                    text,
                    &mut repeats,
                    Ghost(repeat_from),
                    Ghost(here),
                );
                let finished = self.finish_field(&mut repeats);
                assert(finished@ =~= field_tree(field, delims));
                fields.push(finished);
                repeat_start = at + width;
                proof {
                    repeat_from = here + 1;
                    field_from = here + 1;
                    done_fields = done_fields.push(field);
                    done_repeats = Seq::empty();
                }
            } else if c == delims.segment {
                self.finish_repeat(
                    repeat_start,
                    at,
                    text,
                    &mut repeats,
                    Ghost(repeat_from),
                    Ghost(here),
                );
                let finished = self.finish_field(&mut repeats);
                assert(finished@ =~= field_tree(field, delims));
                fields.push(finished);
                let source = cut(text, line_start, at, Ghost(line_from), Ghost(here));
                let segment = ForwardsMessageParser::finish_segment(source, &mut fields);
                assert(segment@.fields =~= segment_tree(line, delims).fields);
                segments.push(segment);
                line_start = at + width;
                repeat_start = at + width;
                proof {
                    line_from = here + 1;
                    field_from = here + 1;
                    repeat_from = here + 1;
                    done_fields = Seq::empty();
                    done_repeats = Seq::empty();
                }
            }
            at = at + width;
        }
        let ghost end = text@.len() as int;
        let ghost rest = text@.subrange(line_from, end);
        assert(text@.subrange(0, end) =~= text@);
        if line_start < at {
            let ghost field = text@.subrange(field_from, end);
            self.finish_repeat(repeat_start, at, text, &mut repeats, Ghost(repeat_from), Ghost(end));
            let finished = self.finish_field(&mut repeats);
            assert(finished@ =~= field_tree(field, delims));
            fields.push(finished);
            let source = cut(text, line_start, at, Ghost(line_from), Ghost(end));
            let segment = ForwardsMessageParser::finish_segment(source, &mut fields);
            assert(segment@.fields =~= segment_tree(rest, delims).fields);
            segments.push(segment);
        } else {
            assert(rest.len() == 0) by {
                if line_from < end {
                    lemma_offsets_grow(text@, line_from, end);
                }
            }
        }
        let message = Message { delims, segments };
        assert(message@.segments =~= message_tree(text@).segments);
        message
    }

    /// Ends the repeat in flight: the span of `input` between the bytes
    /// `start_index` and `end_index` becomes the next of `repeats`, whole, as
    /// its one component.
    fn finish_repeat<'a>(
        &mut self,
        start_index: usize,
        end_index: usize,
        input: &'a str,
        repeats: &mut Vec<Repeat2<'a>>,
        Ghost(from): Ghost<int>,
        Ghost(to): Ghost<int>,
    )
        requires
            0 <= from <= to <= input@.len(),
            start_index == byte_offset(input@, from),
            end_index == byte_offset(input@, to),
        ensures
            final(repeats)@.len() == old(repeats)@.len() + 1,
            forall|k: int| 0 <= k < old(repeats)@.len() ==> final(repeats)@[k] == old(repeats)@[k],
            final(repeats)@.last()@ == seq![input@.subrange(from, to)],
    {
        let value = cut(input, start_index, end_index, Ghost(from), Ghost(to));
        let mut components: Vec<&'a str> = Vec::new();
        components.push(value);
        let repeat = Repeat2 { components };
        repeats.push(repeat);
    }

    /// Ends the field in flight: the repeats gathered so far become a field,
    /// and `repeats` is left empty, its allocation kept for the next field.
    fn finish_field<'a>(&mut self, repeats: &mut Vec<Repeat2<'a>>) -> (field: Field2<'a>)
        ensures
            field.repeats@ == old(repeats)@,
            final(repeats)@.len() == 0,
    {
        let mut gathered: Vec<Repeat2<'a>> = Vec::new();
        gathered.append(repeats);
        Field2 { repeats: gathered }
    }

    /// Ends the segment in flight: the fields gathered so far become the
    /// segment of the line `source`, and `fields` is left empty, its
    /// allocation kept for the next segment.
    fn finish_segment<'a>(source: &'a str, fields: &mut Vec<Field2<'a>>) -> (segment: Segment2<'a>)
        ensures
            segment.source@ == source@,
            segment.fields@ == old(fields)@,
            final(fields)@.len() == 0,
    {
        let mut gathered: Vec<Field2<'a>> = Vec::new();
        gathered.append(fields);
        Segment2 { source, fields: gathered }
    }
}

impl<'a> Message<'a> {
    /// The text of a field, found by the code of its segment and its number
    /// in the segment, the code itself being field 0. Reads the tree: the
    /// first segment whose line opens with `segment_type` is taken. Empty
    /// where there is no such segment or no such field in it.
    pub fn get_field(&self, segment_type: &str, field_index: usize) -> (text: String)
        ensures
            text@ == self@.field(segment_type@, field_index as int),
    {
        let mut at: usize = 0;
        while at < self.segments.len()
            invariant
                at <= self.segments.len(),
                forall|k: int| 0 <= k < at ==> !has_code(#[trigger] self@.lines()[k], segment_type@),
            decreases self.segments.len() - at,
        {
            let segment = &self.segments[at];
            if opens_with(segment.source, segment_type) {
                proof {
                    lemma_first_with_code(self@.lines(), segment_type@, at as int);
                }
                if field_index < segment.fields.len() {
                    return segment.fields[field_index].get_all_as_string_with(&self.delims);
                }
                return String::new();
            }
            at = at + 1;
        }
        proof {
            lemma_first_with_code(self@.lines(), segment_type@, at as int);
        }
        String::new()
    }
}

impl Message2 {
    /// The text of a field, found by the code of its segment and its number
    /// in the segment, the code itself being field 0. Scans the text anew on
    /// every call: the first line that opens with `segment_type` is cut at
    /// the field separator. Empty where there is no such line or no such
    /// field in it.
    pub fn get_field(&self, segment_type: &str, field_index: usize) -> (text: String)
        ensures
            text@ == field_in_text(self@, segment_type@, field_index as int),
    {
        let input = self.input.as_str();
        let delims = Separators::resolve(Some(input));
        let lines = split(input, delims.segment);
        let mut at: usize = 0;
        while at < lines.len()
            invariant
                at <= lines.len(),
                input@ == self@,
                delims == resolved_separators(Some(self@)),
                lines.deep_view() == split_text(input@, delims.segment),
                forall|k: int|
                    0 <= k < at ==> !has_code(#[trigger] lines.deep_view()[k], segment_type@),
            decreases lines.len() - at,
        {
            if opens_with(lines[at], segment_type) {
                proof {
                    lemma_first_with_code(lines.deep_view(), segment_type@, at as int);
                }
                let fields = split(lines[at], delims.field);
                if field_index < fields.len() {
                    return fields[field_index].to_owned();
                }
                return String::new();
            }
            at = at + 1;
        }
        proof {
            lemma_first_with_code(lines.deep_view(), segment_type@, at as int);
        }
        String::new()
    }
}

} // verus!
