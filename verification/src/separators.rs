//! The delimiter set of a message.

use vstd::prelude::*;
use vstd::string::*;
use crate::offsets::leading;

verus! {

/// The six characters that govern every split of one message. A value is
/// made once per message and copied into whatever has to split again.
#[derive(Debug, PartialEq, Eq, Clone, Copy)]
pub struct Separators {
    /// Ends a segment; the standard fixes it to a carriage return.
    pub segment: char,
    pub field: char,
    pub repeat: char,
    pub component: char,
    pub subcomponent: char,
    pub escape_char: char,
}

/// The delimiters that a message uses when its header declares no others:
/// `\r`, `|`, `~`, `^`, `&` and `\`.
pub open spec fn standard_separators() -> Separators {
    Separators {
        segment: '\r',
        field: '|',
        repeat: '~',
        component: '^',
        subcomponent: '&',
        escape_char: '\\',
    }
}

/// The delimiters that a header line declares, read by position: the
/// character after the three-letter code is the field separator, the four
/// after it are the component, repeat, escape and subcomponent characters.
pub open spec fn declared_separators(line: Seq<char>) -> Separators
    recommends
        line.len() >= 8,
{
    Separators {
        segment: '\r',
        field: line[3],
        component: line[4],
        repeat: line[5],
        escape_char: line[6],
        subcomponent: line[7],
    }
}

/// Whether `line` opens with the header code and goes on to declare a
/// delimiter set that can be used: all five characters present, and the six
/// delimiters distinct.
pub open spec fn declares_separators(line: Seq<char>) -> bool {
    &&& line.len() >= 8
    &&& line[0] == 'M'
    &&& line[1] == 'S'
    &&& line[2] == 'H'
    &&& declared_separators(line).distinct()
}

/// The delimiters in force for a message whose first line is `header_line`:
/// those it declares where it declares any, the standard ones otherwise.
pub open spec fn resolved_separators(header_line: Option<Seq<char>>) -> Separators {
    match header_line {
        Some(line) if declares_separators(line) => declared_separators(line),
        _ => standard_separators(),
    }
}

impl Separators {
    /// The invariant of a delimiter set: no character plays two roles.
    pub open spec fn distinct(self) -> bool {
        &&& self.segment != self.field
        &&& self.segment != self.repeat
        &&& self.segment != self.component
        &&& self.segment != self.subcomponent
        &&& self.segment != self.escape_char
        &&& self.field != self.repeat
        &&& self.field != self.component
        &&& self.field != self.subcomponent
        &&& self.field != self.escape_char
        &&& self.repeat != self.component
        &&& self.repeat != self.subcomponent
        &&& self.repeat != self.escape_char
        &&& self.component != self.subcomponent
        &&& self.component != self.escape_char
        &&& self.subcomponent != self.escape_char
    }

    /// Whether no character plays two roles.
    pub fn is_distinct(&self) -> (yes: bool)
        ensures
            yes == self.distinct(),
    {
        self.segment != self.field && self.segment != self.repeat && self.segment
            != self.component && self.segment != self.subcomponent && self.segment
            != self.escape_char && self.field != self.repeat && self.field != self.component
            && self.field != self.subcomponent && self.field != self.escape_char && self.repeat
            != self.component && self.repeat != self.subcomponent && self.repeat
            != self.escape_char && self.component != self.subcomponent && self.component
            != self.escape_char && self.subcomponent != self.escape_char
    }

    /// Reads the delimiters of a message off its first line. Lenient by
    /// design: a line that is absent, too short, does not open with the header
    /// code or declares one character for two roles yields the standard
    /// delimiters, never an error. No more than the first eight characters
    /// are read, so the whole text of a message does for its first line.
    pub fn resolve(header_line: Option<&str>) -> (separators: Separators)
        ensures
            separators == resolved_separators(
                match header_line {
                    Some(line) => Some(line@),
                    None => None,
                },
            ),
            separators.distinct(),
    {
        match header_line {
            Some(line) => {
                let head = leading(line, 8);
                if head.len() == 8 && head[0] == 'M' && head[1] == 'S' && head[2] == 'H' {
                    let declared = Separators {
                        segment: '\r',
                        field: head[3],
                        component: head[4],
                        repeat: head[5],
                        escape_char: head[6],
                        subcomponent: head[7],
                    };
                    if declared.is_distinct() {
                        return declared;
                    }
                }
                Separators::default()
            },
            None => Separators::default(),
        }
    }
}

impl Default for Separators {
    /// The standard delimiters.
    fn default() -> (separators: Separators)
        ensures
            separators == standard_separators(),
            separators.distinct(),
    {
        Separators {
            segment: '\r',
            field: '|',
            repeat: '~',
            component: '^',
            subcomponent: '&',
            escape_char: '\\',
        }
    }
}

} // verus!
