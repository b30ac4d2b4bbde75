//! Support for filling the store from an external table source: identifier
//! assignment for source tables, and the error vocabulary of the conversion
//! layer.
//!
//! A value source walks an external tree of tables and drives insertion into
//! the store. Each table is given a numeric identifier the first time it is
//! seen, written back into the table itself, so that a table mentioned twice
//! resolves to the same node. The reading and writing of the table's
//! identifier field is the caller's business; this module decides what the
//! identifier is.

use vstd::prelude::*;

verus! {

/// The identifier assigned to one source table.
#[derive(Debug, Hash, Clone, Copy, PartialEq, Eq, Structural)]
pub struct TableId(i64);

impl TableId {
    /// The numeric value of this identifier.
    pub closed spec fn spec_value(self) -> i64 {
        self.0
    }

    /// The numeric value of this identifier.
    pub fn value(&self) -> (r: i64)
        ensures
            r == self.spec_value(),
    {
        self.0
    }

    /// Decides a table's identifier: a table that already carries an
    /// identifier value keeps it; a table without one is assigned the next
    /// fresh identifier, which the caller must write back into the table.
    /// The second component is the value to write back, if any.
    pub fn get_or_assign(current: Option<i64>, source: &mut TableIdSource) -> (r: (
        TableId,
        Option<i64>,
    ))
        requires
            current is None ==> old(source).spec_value() < i64::MAX,
        ensures
            match current {
                Some(value) => {
                    &&& r.0.spec_value() == value
                    &&& r.1 is None
                    &&& *final(source) == *old(source)
                },
                None => {
                    &&& r.0.spec_value() == old(source).spec_value()
                    &&& r.1 == Some(old(source).spec_value())
                    &&& final(source).spec_value() == old(source).spec_value() + 1
                },
            },
    {
        match current {
            Some(value) => (TableId(value), None),
            None => {
                let id = source.next_table_id();
                let value = id.value();
                (id, Some(value))
            },
        }
    }
}

/// A counter handing out fresh table identifiers, in order, starting at
/// zero.
pub struct TableIdSource(i64);

impl TableIdSource {
    /// The value the next identifier will have.
    pub closed spec fn spec_value(self) -> i64 {
        self.0
    }

    /// Creates a source whose first identifier is zero.
    pub fn new() -> (r: Self)
        ensures
            r.spec_value() == 0,
    {
        TableIdSource(0)
    }

    /// Hands out the next identifier and advances the counter.
    pub fn next_table_id(&mut self) -> (r: TableId)
        requires
            old(self).spec_value() < i64::MAX,
        ensures
            r.spec_value() == old(self).spec_value(),
            final(self).spec_value() == old(self).spec_value() + 1,
    {
        let id = TableId(self.0);
        self.0 = self.0 + 1;
        id
    }
}

/// What a conversion pass needs from its surroundings: the error type it
/// reports with, the store's identifier type, how a table identifier maps
/// into it, and a supply of fresh table identifiers. Implemented by the
/// driver that walks the external source and fills the store.
pub trait FromLuaContext {
    /// The error type conversions report with.
    type Error: Error;

    /// The node identifier type of the store being filled.
    type NodeId;

    /// How a table's identifier names a node in the store.
    fn table_id_to_node_id(&self, id: TableId) -> Self::NodeId;

    /// Hands out a fresh table identifier.
    fn next_table_id(&mut self) -> TableId;
}

/// The error vocabulary of the conversion layer. A conversion's error type
/// implements this trait; the defaulted constructors build the standard
/// messages out of [`invalid_length_message`], [`invalid_type_message`] and
/// [`invalid_variant_message`], and each promises which message its result
/// wraps.
pub trait Error: Sized {
    /// Whether an error value wraps the given message: what every
    /// constructor promises of its result. Each implementation says what
    /// wrapping means for it.
    spec fn spec_wraps(e: Self, message: Seq<char>) -> bool;

    /// Wraps an arbitrary message.
    fn custom(message: String) -> (r: Self)
        ensures
            Self::spec_wraps(r, message@),
    ;

    /// A sequence had the wrong number of elements.
    fn invalid_length(length: usize, expected: usize) -> (r: Self)
        ensures
            Self::spec_wraps(
                r,
                spec_invalid_length_message(length as nat, expected as nat),
            ),
    {
        Self::custom(invalid_length_message(length, expected))
    }

    /// A value had the wrong kind; both kinds are named.
    fn invalid_type(kind_name: &str, expected: &str) -> (r: Self)
        ensures
            Self::spec_wraps(r, spec_invalid_type_message(kind_name@, expected@)),
    {
        Self::custom(invalid_type_message(kind_name, expected))
    }

    /// An enumeration variant name was not one of the expected ones.
    fn invalid_variant(variant: &str, expected: &[&str]) -> (r: Self)
        ensures
            Self::spec_wraps(
                r,
                spec_invalid_variant_message(
                    variant@,
                    Seq::new(expected@.len(), |i: int| expected@[i]@),
                ),
            ),
    {
        Self::custom(invalid_variant_message(variant, expected))
    }
}

impl Error for String {
    /// A plain string error wraps a message by being it.
    open spec fn spec_wraps(e: String, message: Seq<char>) -> bool {
        e@ == message
    }

    fn custom(message: String) -> (r: Self) {
        message
    }
}

/// The decimal digit for one value below ten.
pub open spec fn spec_digit(d: nat) -> char {
    if d == 0 { '0' }
    else if d == 1 { '1' }
    else if d == 2 { '2' }
    else if d == 3 { '3' }
    else if d == 4 { '4' }
    else if d == 5 { '5' }
    else if d == 6 { '6' }
    else if d == 7 { '7' }
    else if d == 8 { '8' }
    else { '9' }
}

/// The decimal notation of a number, without sign or padding.
pub open spec fn spec_decimal(n: nat) -> Seq<char>
    decreases n,
{
    if n < 10 {
        seq![spec_digit(n)]
    } else {
        spec_decimal(n / 10) + seq![spec_digit(n % 10)]
    }
}

fn digit_str(d: usize) -> (s: &'static str)
    requires
        d < 10,
    ensures
        s@ == seq![spec_digit(d as nat)],
{
    match d {
        0 => {
            proof { reveal_strlit("0"); }
            "0"
        },
        1 => {
            proof { reveal_strlit("1"); }
            "1"
        },
        2 => {
            proof { reveal_strlit("2"); }
            "2"
        },
        3 => {
            proof { reveal_strlit("3"); }
            "3"
        },
        4 => {
            proof { reveal_strlit("4"); }
            "4"
        },
        5 => {
            proof { reveal_strlit("5"); }
            "5"
        },
        6 => {
            proof { reveal_strlit("6"); }
            "6"
        },
        7 => {
            proof { reveal_strlit("7"); }
            "7"
        },
        8 => {
            proof { reveal_strlit("8"); }
            "8"
        },
        _ => {
            proof { reveal_strlit("9"); }
            "9"
        },
    }
}

/// Writes a number in decimal notation.
pub fn decimal_string(n: usize) -> (s: String)
    ensures
        s@ == spec_decimal(n as nat),
    decreases n,
{
    if n < 10 {
        let mut s = String::new();
        s.append(digit_str(n));
        proof {
            assert(s@ =~= spec_decimal(n as nat));
        }
        s
    } else {
        let mut s = decimal_string(n / 10);
        s.append(digit_str(n % 10));
        proof {
            assert(s@ =~= spec_decimal(n as nat));
        }
        s
    }
}

/// The message for a sequence of the wrong length.
pub open spec fn spec_invalid_length_message(length: nat, expected: nat) -> Seq<char> {
    "invalid length "@ + spec_decimal(length) + ", expected "@ + spec_decimal(expected)
}

/// Builds the message for a sequence of the wrong length.
pub fn invalid_length_message(length: usize, expected: usize) -> (s: String)
    ensures
        s@ == spec_invalid_length_message(length as nat, expected as nat),
{
    let mut s = String::new();
    s.append("invalid length ");
    let d = decimal_string(length);
    s.append(d.as_str());
    s.append(", expected ");
    let d = decimal_string(expected);
    s.append(d.as_str());
    proof {
        assert(s@ =~= spec_invalid_length_message(length as nat, expected as nat));
    }
    s
}

/// The message for a value of the wrong kind.
pub open spec fn spec_invalid_type_message(kind_name: Seq<char>, expected: Seq<char>) -> Seq<char> {
    "unexpected "@ + kind_name + ", expected "@ + expected
}

/// Builds the message for a value of the wrong kind.
pub fn invalid_type_message(kind_name: &str, expected: &str) -> (s: String)
    ensures
        s@ == spec_invalid_type_message(kind_name@, expected@),
{
    let mut s = String::new();
    s.append("unexpected ");
    s.append(kind_name);
    s.append(", expected ");
    s.append(expected);
    proof {
        assert(s@ =~= spec_invalid_type_message(kind_name@, expected@));
    }
    s
}

/// A name wrapped in double quotes.
pub open spec fn spec_quoted(name: Seq<char>) -> Seq<char> {
    seq!['"'] + name + seq!['"']
}

/// The quoted names, separated by commas.
pub open spec fn spec_quoted_list(names: Seq<Seq<char>>) -> Seq<char>
    decreases names.len(),
{
    if names.len() == 0 {
        Seq::empty()
    } else if names.len() == 1 {
        spec_quoted(names[0])
    } else {
        spec_quoted_list(names.drop_last()) + ", "@ + spec_quoted(names.last())
    }
}

/// The message for an unexpected enumeration variant: it names the variant,
/// and the expected variants if there are any.
pub open spec fn spec_invalid_variant_message(
    variant: Seq<char>,
    expected: Seq<Seq<char>>,
) -> Seq<char> {
    if expected.len() == 0 {
        "unexpected enumeration variant "@ + spec_quoted(variant)
            + ", none where expected"@
    } else {
        "unexpected enumeration variant "@ + spec_quoted(variant) + ", expected one of "@
            + spec_quoted_list(expected)
    }
}

fn push_quoted(s: &mut String, name: &str)
    ensures
        final(s)@ == old(s)@ + spec_quoted(name@),
{
    proof { reveal_strlit("\""); }
    s.append("\"");
    s.append(name);
    s.append("\"");
    proof {
        assert(final(s)@ =~= old(s)@ + spec_quoted(name@));
    }
}

/// Builds the message for an unexpected enumeration variant.
pub fn invalid_variant_message(variant: &str, expected: &[&str]) -> (s: String)
    ensures
        s@ == spec_invalid_variant_message(
            variant@,
            Seq::new(expected@.len(), |i: int| expected@[i]@),
        ),
{
    let ghost names = Seq::new(expected@.len(), |i: int| expected@[i]@);
    let mut s = String::new();
    s.append("unexpected enumeration variant ");
    push_quoted(&mut s, variant);
    if expected.len() == 0 {
        s.append(", none where expected");
        proof {
            assert(s@ =~= spec_invalid_variant_message(variant@, names));
        }
        s
    } else {
        s.append(", expected one of ");
        let ghost prefix = s@;
        let mut i: usize = 0;
        while i < expected.len()
            invariant
                i <= expected@.len(),
                expected@.len() > 0,
                names == Seq::new(expected@.len(), |j: int| expected@[j]@),
                s@ == prefix + spec_quoted_list(names.take(i as int)),
            decreases expected@.len() - i,
        {
            if i > 0 {
                s.append(", ");
            }
            push_quoted(&mut s, expected[i]);
            i = i + 1;
            proof {
                assert(names.take(i as int).drop_last() =~= names.take(i - 1));
                assert(names.take(i as int).last() == names[i - 1]);
                assert(s@ =~= prefix + spec_quoted_list(names.take(i as int)));
            }
        }
        proof {
            assert(names.take(expected@.len() as int) =~= names);
            assert(s@ =~= spec_invalid_variant_message(variant@, names));
        }
        s
    }
}

} // verus!
