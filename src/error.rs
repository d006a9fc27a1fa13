use vstd::prelude::*;

verus! {

/// The numeric part of a size string could not be read.
#[derive(Debug, Clone, Copy, PartialEq, Eq, Structural)]
pub enum ValueIncorrectError {
    /// A character stood where a digit was required.
    NotNumber(char),
    /// The string held nothing but whitespace.
    NoValue,
}

/// The unit suffix of a size string could not be read.
#[derive(Debug, Clone)]
pub struct UnitIncorrectError {
    /// The character that stopped the unit recognizer.
    pub character: char,
    /// The characters that would have been accepted in its place, in order.
    pub expected_characters: Vec<char>,
    /// Whether the string could also have ended at that point.
    pub also_expect_no_character: bool,
}

/// Any failure to read a size string.
#[derive(Debug, Clone)]
pub enum ByteError {
    ValueIncorrect(ValueIncorrectError),
    UnitIncorrect(UnitIncorrectError),
}

impl From<ValueIncorrectError> for ByteError {
    fn from(e: ValueIncorrectError) -> ByteError {
        ByteError::ValueIncorrect(e)
    }
}

impl vstd::std_specs::convert::FromSpecImpl<ValueIncorrectError> for ByteError {
    open spec fn obeys_from_spec() -> bool {
        true
    }

    open spec fn from_spec(e: ValueIncorrectError) -> ByteError {
        ByteError::ValueIncorrect(e)
    }
}

impl From<UnitIncorrectError> for ByteError {
    fn from(e: UnitIncorrectError) -> ByteError {
        ByteError::UnitIncorrect(e)
    }
}

impl vstd::std_specs::convert::FromSpecImpl<UnitIncorrectError> for ByteError {
    open spec fn obeys_from_spec() -> bool {
        true
    }

    open spec fn from_spec(e: UnitIncorrectError) -> ByteError {
        ByteError::UnitIncorrect(e)
    }
}

/// The mathematical content of a `ByteError`.
pub enum SizeFault {
    NotNumber(char),
    NoValue,
    UnitIncorrect { character: char, expected: Seq<char>, also_none: bool },
}

impl View for ByteError {
    type V = SizeFault;

    open spec fn view(&self) -> SizeFault {
        match self {
            ByteError::ValueIncorrect(ValueIncorrectError::NotNumber(c)) => SizeFault::NotNumber(*c),
            ByteError::ValueIncorrect(ValueIncorrectError::NoValue) => SizeFault::NoValue,
            ByteError::UnitIncorrect(u) => SizeFault::UnitIncorrect {
                character: u.character,
                expected: u.expected_characters@,
                also_none: u.also_expect_no_character,
            },
        }
    }
}

/// How `char`'s `Debug` writes `c`.
pub uninterp spec fn char_debug(c: char) -> Seq<char>;

/// Relies on `char`'s `Debug` impl: the character between single quotes,
/// escaped as Rust source would write it.
#[verifier::external_body]
fn debug_char(c: char) -> (r: String)
    ensures
        r@ == char_debug(c),
{
    format!("{:?}", c)
}

/// `, a, b, c` for the items `a`, `b`, `c`.
pub open spec fn listed(items: Seq<Seq<char>>) -> Seq<char>
    decreases items.len(),
{
    if items.len() == 0 {
        Seq::empty()
    } else {
        listed(items.drop_last()) + ", "@ + items.last()
    }
}

/// The message for a unit error on the character written `character`, where
/// the characters written `expected` (and perhaps none) would have done.
pub open spec fn unit_message_text(character: Seq<char>, expected: Seq<Seq<char>>, also_none: bool) -> Seq<char> {
    let head = "The character "@ + character + " is incorrect. "@;
    let n = expected.len();
    if n == 0 {
        head + "No character is expected."@
    } else if n == 1 {
        head + expected[0] + if also_none {
            " or no character is expected."@
        } else {
            " is expected."@
        }
    } else {
        head + expected[0] + listed(expected.subrange(1, n - 1)) + if also_none {
            ", "@ + expected[n - 1] + " or no character is expected."@
        } else {
            " or "@ + expected[n - 1] + " is expected."@
        }
    }
}

pub open spec fn views(items: Seq<String>) -> Seq<Seq<char>> {
    items.map_values(|s: String| s@)
}

/// Builds the message of a unit error from the written forms of its
/// characters.
pub fn compose_unit_message(character: &str, expected: &Vec<String>, also_none: bool) -> (r: String)
    ensures
        r@ == unit_message_text(character@, views(expected@), also_none),
{
    let ghost ex = views(expected@);
    let mut m = String::new();
    m.append("The character ");
    m.append(character);
    m.append(" is incorrect. ");
    let n = expected.len();
    if n == 0 {
        m.append("No character is expected.");
    } else {
        m.append(expected[0].as_str());
        if n > 1 {
            let ghost head = m@;
            let mut i: usize = 1;
            assert(ex.subrange(1, 1) =~= Seq::<Seq<char>>::empty());
            assert(m@ =~= head + listed(ex.subrange(1, 1)));
            while i < n - 1
                invariant
                    1 <= i <= n - 1,
                    n == expected@.len(),
                    ex == views(expected@),
                    m@ == head + listed(ex.subrange(1, i as int)),
                decreases n - 1 - i,
            {
                m.append(", ");
                m.append(expected[i].as_str());
                assert(ex.subrange(1, i + 1).drop_last() =~= ex.subrange(1, i as int));
                i += 1;
                assert(m@ =~= head + listed(ex.subrange(1, i as int)));
            }
            if also_none {
                m.append(", ");
                m.append(expected[n - 1].as_str());
                m.append(" or no character is expected.");
            } else {
                m.append(" or ");
                m.append(expected[n - 1].as_str());
                m.append(" is expected.");
            }
        } else if also_none {
            m.append(" or no character is expected.");
        } else {
            m.append(" is expected.");
        }
    }
    assert(m@ =~= unit_message_text(character@, ex, also_none));
    m
}

impl UnitIncorrectError {
    /// The message that tells the user what went wrong.
    pub fn message(&self) -> (r: String)
        ensures
            r@ == unit_message_text(
                char_debug(self.character),
                self.expected_characters@.map_values(|e: char| char_debug(e)),
                self.also_expect_no_character,
            ),
    {
        let c = debug_char(self.character);
        let mut quoted: Vec<String> = Vec::new();
        let n = self.expected_characters.len();
        let mut i: usize = 0;
        while i < n
            invariant
                i <= n,
                n == self.expected_characters@.len(),
                views(quoted@) == self.expected_characters@.take(i as int).map_values(
                    |e: char| char_debug(e),
                ),
            decreases n - i,
        {
            let ghost before = quoted@;
            let q = debug_char(self.expected_characters[i]);
            quoted.push(q);
            assert(views(quoted@) =~= views(before).push(char_debug(self.expected_characters@[i as int])));
            assert(self.expected_characters@.take(i + 1) =~= self.expected_characters@.take(i as int).push(
                self.expected_characters@[i as int],
            ));
            i += 1;
            assert(views(quoted@) =~= self.expected_characters@.take(i as int).map_values(
                |e: char| char_debug(e),
            ));
        }
        assert(self.expected_characters@.take(n as int) =~= self.expected_characters@);
        compose_unit_message(c.as_str(), &quoted, self.also_expect_no_character)
    }
}

/// The message for a value error.
pub open spec fn value_message_text(e: ValueIncorrectError) -> Seq<char> {
    match e {
        ValueIncorrectError::NotNumber(c) => "the character "@ + char_debug(c) + " is not a number"@,
        ValueIncorrectError::NoValue => "no value"@,
    }
}

impl ValueIncorrectError {
    /// The message that tells the user what went wrong.
    pub fn message(&self) -> (r: String)
        ensures
            r@ == value_message_text(*self),
    {
        match self {
            ValueIncorrectError::NotNumber(c) => {
                let mut m = String::new();
                m.append("the character ");
                m.append(debug_char(*c).as_str());
                m.append(" is not a number");
                assert(m@ =~= value_message_text(*self));
                m
            },
            ValueIncorrectError::NoValue => {
                let mut m = String::new();
                m.append("no value");
                assert(m@ =~= value_message_text(*self));
                m
            },
        }
    }
}

impl ByteError {
    /// The message that tells the user what went wrong.
    pub fn message(&self) -> (r: String)
        ensures
            r@ == match self {
                ByteError::ValueIncorrect(v) => value_message_text(*v),
                ByteError::UnitIncorrect(u) => unit_message_text(
                    char_debug(u.character),
                    u.expected_characters@.map_values(|e: char| char_debug(e)),
                    u.also_expect_no_character,
                ),
            },
    {
        match self {
            ByteError::ValueIncorrect(v) => v.message(),
            ByteError::UnitIncorrect(u) => u.message(),
        }
    }
}

} // verus!
