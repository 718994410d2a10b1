//! One field of a segment, with the repeats, components and subcomponents
//! nested in it, and the two ways of addressing them.

use std::ops::Index;
use vstd::prelude::*;
use vstd::string::*;
use crate::paths::{decimal, lemma_lettered_number, read_place, token_place};
use crate::separators::Separators;
use crate::text::{
    join_text, lemma_join_of_split, lemma_split_around_delimiter, lemma_split_is_clean,
    lemma_split_without_delimiter, split, split_text,
};
use crate::Hl7ParseError;

verus! {

/// Each of `texts` split on `delimiter`, in order.
pub open spec fn split_each(texts: Seq<Seq<char>>, delimiter: char) -> Seq<Seq<Seq<char>>> {
    texts.map_values(|text: Seq<char>| split_text(text, delimiter))
}

/// What a [`Field`] holds, as characters.
pub struct FieldView {
    pub source: Seq<char>,
    pub delims: Separators,
    /// `repeats[r]` is the text of repeat `r`.
    pub repeats: Seq<Seq<char>>,
    /// `components[r][c]` is the text of component `c` of repeat `r`.
    pub components: Seq<Seq<Seq<char>>>,
    /// `subcomponents[r][c][s]` is the text of subcomponent `s` of that component.
    pub subcomponents: Seq<Seq<Seq<Seq<char>>>>,
}

impl FieldView {
    /// The field that `source` is under `delims`: its repeats are `source`
    /// split on the repeat separator, the components of a repeat are the
    /// repeat split on the component separator, the subcomponents of a
    /// component are the component split on the subcomponent separator.
    pub open spec fn of(source: Seq<char>, delims: Separators) -> FieldView {
        let repeats = split_text(source, delims.repeat);
        let components = split_each(repeats, delims.component);
        FieldView {
            source,
            delims,
            repeats,
            components,
            subcomponents: components.map_values(
                |of_repeat: Seq<Seq<char>>| split_each(of_repeat, delims.subcomponent),
            ),
        }
    }

    /// The three levels are what splitting the source gives.
    pub open spec fn wf(self) -> bool {
        self == FieldView::of(self.source, self.delims)
    }

    /// The text of repeat `r`, counted from zero; empty where there is none.
    pub open spec fn repeat(self, r: int) -> Seq<char> {
        if 0 <= r < self.repeats.len() {
            self.repeats[r]
        } else {
            Seq::empty()
        }
    }

    /// The text of component `c` of repeat `r`, both counted from zero; empty
    /// where there is none.
    pub open spec fn component(self, r: int, c: int) -> Seq<char> {
        if 0 <= r < self.components.len() && 0 <= c < self.components[r].len() {
            self.components[r][c]
        } else {
            Seq::empty()
        }
    }

    /// The text of subcomponent `s` of component `c` of repeat `r`, all
    /// counted from zero; empty where there is none.
    pub open spec fn subcomponent(self, r: int, c: int, s: int) -> Seq<char> {
        if 0 <= r < self.subcomponents.len() && 0 <= c < self.subcomponents[r].len() && 0 <= s
            < self.subcomponents[r][c].len() {
            self.subcomponents[r][c][s]
        } else {
            Seq::empty()
        }
    }

    /// What the tokens of a dotted path address. One token names a repeat,
    /// two name a repeat and a component of it, each counting from one.
    /// Empty where a token names no place, where the place does not exist,
    /// and for three tokens or more.
    pub open spec fn at_tokens(self, tokens: Seq<Seq<char>>) -> Seq<char> {
        if tokens.len() == 1 {
            match token_place(tokens[0]) {
                Some(r) => self.repeat(r as int),
                None => Seq::empty(),
            }
        } else if tokens.len() == 2 {
            match (token_place(tokens[0]), token_place(tokens[1])) {
                (Some(r), Some(c)) => self.component(r as int, c as int),
                _ => Seq::empty(),
            }
        } else {
            Seq::empty()
        }
    }

    /// What a dotted path addresses: the path is cut at its dots, and the
    /// tokens address a repeat or a component as [`FieldView::at_tokens`]
    /// says. A path of three tokens or more addresses nothing.
    pub open spec fn query(self, path: Seq<char>) -> Seq<char> {
        self.at_tokens(split_text(path, '.'))
    }

    /// What a dotted path addresses when it is used as an index. As
    /// [`FieldView::query`], and one level deeper: a path of three tokens
    /// names a repeat, a component of it and a subcomponent of that, each
    /// counting from one. Empty where a token names no place, where the place
    /// does not exist, and for every path of four tokens or more.
    pub open spec fn locate(self, path: Seq<char>) -> Seq<char> {
        let tokens = split_text(path, '.');
        if tokens.len() == 3 {
            match (token_place(tokens[0]), token_place(tokens[1]), token_place(tokens[2])) {
                (Some(r), Some(c), Some(s)) => self.subcomponent(r as int, c as int, s as int),
                _ => Seq::empty(),
            }
        } else {
            self.at_tokens(tokens)
        }
    }
}

/// A single value between two field separators. It keeps the span it was
/// parsed from and, split out of that span at construction, its repeats,
/// their components and their subcomponents: every one a span of the same
/// text, none a copy.
#[derive(Debug, PartialEq)]
pub struct Field<'a> {
    pub source: &'a str,
    pub delims: Separators,
    pub repeats: Vec<&'a str>,
    pub components: Vec<Vec<&'a str>>,
    pub subcomponents: Vec<Vec<Vec<&'a str>>>,
}

impl<'a> View for Field<'a> {
    type V = FieldView;

    open spec fn view(&self) -> FieldView {
        FieldView {
            source: self.source@,
            delims: self.delims,
            repeats: self.repeats.deep_view(),
            components: self.components.deep_view(),
            subcomponents: self.subcomponents.deep_view(),
        }
    }
}

/// Splits every one of `texts` on `delimiter`.
fn split_all<'a>(texts: &Vec<&'a str>, delimiter: char) -> (parts: Vec<Vec<&'a str>>)
    ensures
        parts.deep_view() == split_each(texts.deep_view(), delimiter),
{
    let mut parts: Vec<Vec<&'a str>> = Vec::new();
    let mut at: usize = 0;
    while at < texts.len()
        invariant
            at <= texts.len(),
            parts.len() == at,
            forall|i: int|
                0 <= i < at ==> (#[trigger] parts[i]).deep_view() == split_text(
                    texts[i]@,
                    delimiter,
                ),
        decreases texts.len() - at,
    {
        let of_text = split(texts[at], delimiter);
        parts.push(of_text);
        at = at + 1;
    }
    parts
}

impl<'a> Field<'a> {
    /// Splits `input` into a field under `delims`.
    fn build(input: &'a str, delims: &Separators) -> (field: Field<'a>)
        ensures
            field@ == FieldView::of(input@, *delims),
    {
        let repeats = split(input, delims.repeat);
        let components = split_all(&repeats, delims.component);
        let mut subcomponents: Vec<Vec<Vec<&'a str>>> = Vec::new();
        let mut at: usize = 0;
        while at < components.len()
            invariant
                at <= components.len(),
                subcomponents.len() == at,
                forall|i: int|
                    0 <= i < at ==> (#[trigger] subcomponents[i]).deep_view() == split_each(
                        components[i].deep_view(),
                        delims.subcomponent,
                    ),
            decreases components.len() - at,
        {
            let of_repeat = split_all(&components[at], delims.subcomponent);
            subcomponents.push(of_repeat);
            at = at + 1;
        }
        let field = Field { source: input, delims: *delims, repeats, components, subcomponents };
        assert(field@.subcomponents =~= FieldView::of(input@, *delims).subcomponents);
        field
    }

    /// Converts the given text into a field. Every text is a field, the empty
    /// one too: this never fails.
    pub fn parse(input: &'a str, delims: &Separators) -> (parsed: Result<Field<'a>, Hl7ParseError>)
        ensures
            parsed matches Ok(field) && field@ == FieldView::of(input@, *delims) && field@.wf(),
    {
        Ok(Field::build(input, delims))
    }

    /// The field at a position that must be filled: a source that is absent
    /// is an error, a source that is present is a field, the empty text too.
    pub fn parse_mandatory(input: Option<&'a str>, delims: &Separators) -> (parsed: Result<
        Field<'a>,
        Hl7ParseError,
    >)
        ensures
            match input {
                Some(text) => parsed matches Ok(field) && field@ == FieldView::of(text@, *delims),
                None => parsed matches Err(error) && error == Hl7ParseError::MissingRequiredValue(),
            },
    {
        match input {
            Some(text) => Field::parse(text, delims),
            None => Err(Hl7ParseError::MissingRequiredValue()),
        }
    }

    /// The field at a position that may be left out. An empty source counts
    /// as left out, exactly as an absent one does: two field separators in a
    /// row are how a message omits a field.
    pub fn parse_optional(input: Option<&'a str>, delims: &Separators) -> (parsed: Result<
        Option<Field<'a>>,
        Hl7ParseError,
    >)
        ensures
            parsed is Ok,
            match input {
                Some(text) if text@.len() > 0 => parsed->Ok_0 matches Some(field) && field@
                    == FieldView::of(text@, *delims),
                _ => parsed->Ok_0 is None,
            },
    {
        match input {
            None => Ok(None),
            Some(text) => if text.is_empty() {
                Ok(None)
            } else {
                Ok(Some(Field::build(text, delims)))
            },
        }
    }

    /// The text that this field was parsed from.
    #[inline]
    pub fn value(&self) -> (text: &'a str)
        ensures
            text@ == self@.source,
    {
        self.source
    }

    /// The text that this field was parsed from.
    #[inline]
    pub fn as_str(&self) -> (text: &'a str)
        ensures
            text@ == self@.source,
    {
        self.source
    }

    /// A copy of the text that this field was parsed from.
    pub fn to_string(&self) -> (text: String)
        ensures
            text@ == self@.source,
    {
        self.source.to_owned()
    }

    /// Resolves a dotted path such as `R2` or `R2.C3`, in which repeats and
    /// components count from one, as people who read these messages do. A
    /// path that addresses nothing resolves to the empty text.
    pub fn query(&self, path: &str) -> (text: &'a str)
        ensures
            text@ == self@.query(path@),
    {
        let tokens = split(path, '.');
        *self.query_tokens(&tokens)
    }

    /// What a path addresses that is already cut into its tokens.
    fn query_tokens(&self, tokens: &Vec<&str>) -> (text: &&'a str)
        ensures
            (*text)@ == self@.at_tokens(tokens.deep_view()),
    {
        proof {
            reveal_strlit("");
        }
        assert(self@.repeats.len() == self.repeats.len());
        assert(self@.components.len() == self.components.len());
        assert(forall|r: int|
            0 <= r < self.components.len() ==> (#[trigger] self@.components[r]).len()
                == self.components[r].len());
        if tokens.len() == 1 {
            match read_place(tokens[0]) {
                Some(r) => &self[r],
                None => &"",
            }
        } else if tokens.len() == 2 {
            match (read_place(tokens[0]), read_place(tokens[1])) {
                (Some(r), Some(c)) => &self[(r, c)],
                _ => &"",
            }
        } else {
            &""
        }
    }
}

impl<'a> Clone for Field<'a> {
    /// A field parsed anew from the same span under the same delimiters: the
    /// clone shares the text and has vectors of its own.
    fn clone(&self) -> (copy: Self)
        ensures
            copy@ == FieldView::of(self.source@, self.delims),
            self@.wf() ==> copy@ == self@,
    {
        let delims = self.delims;
        Field::build(self.source, &delims)
    }
}

impl<'a> vstd::std_specs::core::IndexSpecImpl<usize> for Field<'a> {
    open spec fn index_req(&self, index: &usize) -> bool {
        true
    }
}

impl<'a> Index<usize> for Field<'a> {
    type Output = &'a str;

    /// The repeat at `idx`, counted from zero; the empty text where there is none.
    fn index(&self, idx: usize) -> (text: &&'a str)
        ensures
            (*text)@ == self@.repeat(idx as int),
    {
        if idx >= self.repeats.len() {
            proof {
                reveal_strlit("");
            }
            return &"";
        }
        &self.repeats[idx]
    }
}

impl<'a> vstd::std_specs::core::IndexSpecImpl<(usize, usize)> for Field<'a> {
    open spec fn index_req(&self, index: &(usize, usize)) -> bool {
        true
    }
}

impl<'a> Index<(usize, usize)> for Field<'a> {
    type Output = &'a str;

    /// The component at `idx.1` of the repeat at `idx.0`; the empty text
    /// where there is none.
    fn index(&self, idx: (usize, usize)) -> (text: &&'a str)
        ensures
            (*text)@ == self@.component(idx.0 as int, idx.1 as int),
    {
        if idx.0 >= self.components.len() || idx.1 >= self.components[idx.0].len() {
            proof {
                reveal_strlit("");
            }
            return &"";
        }
        &self.components[idx.0][idx.1]
    }
}

impl<'a> vstd::std_specs::core::IndexSpecImpl<(usize, usize, usize)> for Field<'a> {
    open spec fn index_req(&self, index: &(usize, usize, usize)) -> bool {
        true
    }
}

impl<'a> Index<(usize, usize, usize)> for Field<'a> {
    type Output = &'a str;

    /// The subcomponent at `idx.2` of the component at `idx.1` of the repeat
    /// at `idx.0`; the empty text where there is none.
    fn index(&self, idx: (usize, usize, usize)) -> (text: &&'a str)
        ensures
            (*text)@ == self@.subcomponent(idx.0 as int, idx.1 as int, idx.2 as int),
    {
        if idx.0 >= self.subcomponents.len() || idx.1 >= self.subcomponents[idx.0].len() || idx.2
            >= self.subcomponents[idx.0][idx.1].len() {
            proof {
                reveal_strlit("");
            }
            return &"";
        }
        &self.subcomponents[idx.0][idx.1][idx.2]
    }
}

impl<'a, 'b> vstd::std_specs::core::IndexSpecImpl<&'b str> for Field<'a> {
    open spec fn index_req(&self, index: &&'b str) -> bool {
        true
    }
}

impl<'a, 'b> Index<&'b str> for Field<'a> {
    type Output = &'a str;

    /// What the dotted path `path` addresses, down to a subcomponent:
    /// `R2`, `R2.C3` or `R2.C3.S1`, each counting from one; the empty text
    /// where it addresses nothing.
    fn index(&self, path: &'b str) -> (text: &&'a str)
        ensures
            (*text)@ == self@.locate(path@),
    {
        let tokens = split(path, '.');
        proof {
            reveal_strlit("");
        }
        assert(self@.subcomponents.len() == self.subcomponents.len());
        assert(forall|r: int, c: int|
            0 <= r < self.subcomponents.len() && 0 <= c < self.subcomponents[r].len() ==> (
            #[trigger] self@.subcomponents[r][c]).len() == self.subcomponents[r][c].len());
        if tokens.len() == 3 {
            match (read_place(tokens[0]), read_place(tokens[1]), read_place(tokens[2])) {
                (Some(r), Some(c), Some(s)) => &self[(r, c, s)],
                _ => &"",
            }
        } else {
            self.query_tokens(&tokens)
        }
    }
}

impl<'a> vstd::std_specs::core::IndexSpecImpl<String> for Field<'a> {
    open spec fn index_req(&self, index: &String) -> bool {
        true
    }
}

impl<'a> Index<String> for Field<'a> {
    type Output = &'a str;

    /// What the dotted path `path` addresses, as for a borrowed path.
    fn index(&self, path: String) -> (text: &&'a str)
        ensures
            (*text)@ == self@.locate(path@),
    {
        &self[path.as_str()]
    }
}

/// Splitting is exhaustive and total at every level of a field: there is
/// always a repeat, every repeat has a component and every component has a
/// subcomponent, be it an empty one, and the three levels have one shape.
pub proof fn lemma_field_is_full(source: Seq<char>, delims: Separators)
    ensures
        ({
            let field = FieldView::of(source, delims);
            &&& field.repeats.len() >= 1
            &&& field.components.len() == field.repeats.len()
            &&& field.subcomponents.len() == field.repeats.len()
            &&& forall|r: int|
                0 <= r < field.repeats.len() ==> (#[trigger] field.components[r]).len() >= 1
                    && field.subcomponents[r].len() == field.components[r].len()
            &&& forall|r: int, c: int|
                0 <= r < field.repeats.len() && 0 <= c < field.components[r].len() ==> (
                #[trigger] field.subcomponents[r][c]).len() >= 1
        }),
{
    let field = FieldView::of(source, delims);
    lemma_split_is_clean(source, delims.repeat);
    assert forall|r: int| 0 <= r < field.repeats.len() implies (#[trigger] field.components[r]).len()
        >= 1 && field.subcomponents[r].len() == field.components[r].len() by {
        lemma_split_is_clean(field.repeats[r], delims.component);
    }
    assert forall|r: int, c: int|
        0 <= r < field.repeats.len() && 0 <= c < field.components[r].len() implies (
    #[trigger] field.subcomponents[r][c]).len() >= 1 by {
        lemma_split_is_clean(field.components[r][c], delims.subcomponent);
    }
}

/// Round trip at every level of a field: the repeats joined by the repeat
/// separator are the source, the components of a repeat joined by the
/// component separator are the repeat, and the subcomponents of a component
/// joined by the subcomponent separator are the component.
pub proof fn lemma_field_round_trip(source: Seq<char>, delims: Separators)
    ensures
        ({
            let field = FieldView::of(source, delims);
            &&& join_text(field.repeats, delims.repeat) == source
            &&& forall|r: int|
                0 <= r < field.repeats.len() ==> join_text(
                    #[trigger] field.components[r],
                    delims.component,
                ) == field.repeats[r]
            &&& forall|r: int, c: int|
                0 <= r < field.repeats.len() && 0 <= c < field.components[r].len() ==> join_text(
                    #[trigger] field.subcomponents[r][c],
                    delims.subcomponent,
                ) == field.components[r][c]
        }),
{
    let field = FieldView::of(source, delims);
    lemma_join_of_split(source, delims.repeat);
    assert forall|r: int| 0 <= r < field.repeats.len() implies join_text(
        #[trigger] field.components[r],
        delims.component,
    ) == field.repeats[r] by {
        lemma_join_of_split(field.repeats[r], delims.component);
    }
    assert forall|r: int, c: int|
        0 <= r < field.repeats.len() && 0 <= c < field.components[r].len() implies join_text(
        #[trigger] field.subcomponents[r][c],
        delims.subcomponent,
    ) == field.components[r][c] by {
        lemma_join_of_split(field.components[r][c], delims.subcomponent);
    }
}

/// A path of one token, a letter and a number from one up, addresses the
/// repeat with that number, repeats counting from one: `R{n}` is what the
/// index `n - 1` gives. For a number of zero, and for one beyond the last
/// repeat, that is the empty text.
pub proof fn lemma_query_repeat(field: FieldView, n: nat)
    ensures
        n >= 1 ==> field.query(seq!['R'] + decimal(n)) == field.repeat(n - 1),
        n == 0 || n > field.repeats.len() ==> field.query(seq!['R'] + decimal(n))
            == Seq::<char>::empty(),
{
    let path = seq!['R'] + decimal(n);
    lemma_lettered_number('R', n);
    lemma_split_without_delimiter(path, '.');
}

/// A path of two tokens addresses a component of a repeat, both counting
/// from one: `R{n}.C{m}` is what the index `(n - 1, m - 1)` gives. For a
/// number of zero, and for one beyond the last repeat or its last component,
/// that is the empty text.
pub proof fn lemma_query_component(field: FieldView, n: nat, m: nat)
    ensures
        n >= 1 && m >= 1 ==> field.query(seq!['R'] + decimal(n) + seq!['.', 'C'] + decimal(m))
            == field.component(n - 1, m - 1),
        n == 0 || m == 0 || n > field.components.len() || m > field.components[n - 1].len()
            ==> field.query(seq!['R'] + decimal(n) + seq!['.', 'C'] + decimal(m))
            == Seq::<char>::empty(),
{
    let first = seq!['R'] + decimal(n);
    let second = seq!['C'] + decimal(m);
    let path = seq!['R'] + decimal(n) + seq!['.', 'C'] + decimal(m);
    lemma_lettered_number('R', n);
    lemma_lettered_number('C', m);
    assert(path =~= first.push('.') + second);
    lemma_split_around_delimiter(first, second, '.');
    lemma_split_without_delimiter(first, '.');
    lemma_split_without_delimiter(second, '.');
}

/// A path with two dots or more, that is of three tokens or more, addresses
/// nothing in a field.
pub proof fn lemma_query_too_deep(field: FieldView, path: Seq<char>, first_dot: int, second_dot: int)
    requires
        0 <= first_dot < second_dot < path.len(),
        path[first_dot] == '.',
        path[second_dot] == '.',
    ensures
        field.query(path) == Seq::<char>::empty(),
{
    let head = path.take(first_dot);
    let rest = path.skip(first_dot + 1);
    let middle = rest.take(second_dot - first_dot - 1);
    let tail = rest.skip(second_dot - first_dot);
    assert(path =~= head.push('.') + rest);
    assert(rest =~= middle.push('.') + tail);
    lemma_split_around_delimiter(head, rest, '.');
    lemma_split_around_delimiter(middle, tail, '.');
    lemma_split_is_clean(head, '.');
    lemma_split_is_clean(middle, '.');
    lemma_split_is_clean(tail, '.');
}

} // verus!
