use vstd::prelude::*;
use vstd::string::*;

verus! {

/// The fields of an object node as a sequence of name and content, in the
/// order in which they were written.
pub type Fields = Seq<(Seq<char>, Json)>;

/// The mathematical content of a [`Node`]: text is a sequence of characters,
/// a collection is a sequence.
pub enum Json {
    Null,
    Bool(bool),
    Int64(i64),
    UInt64(u64),
    Float64 { bits: u64, text: Seq<char> },
    Str(Seq<char>),
    Array(Seq<Json>),
    Object(Fields),
}

/// A double-precision number, held without floating-point arithmetic: `bits`
/// is its IEEE 754 bit pattern, by which numbers are ordered, and `text` is
/// its decimal form, which is what a cell shows. Nothing holds the two to one
/// another: who makes a `Float` gives both.
#[derive(Debug, PartialEq)]
pub struct Float {
    pub bits: u64,
    pub text: String,
}

/// An object node: its fields in the order in which they were written. Two
/// fields may have one name; the first of them is the one that is found.
#[derive(Debug, PartialEq)]
pub struct Record {
    pub entries: Vec<(String, Node)>,
}

/// A node of a parsed document. Exactly one variant is active; the three
/// numeric variants are never converted into one another.
#[derive(Debug, PartialEq)]
pub enum Node {
    Null,
    Bool(bool),
    Int64(i64),
    UInt64(u64),
    Float64(Float),
    Str(String),
    Array(Vec<Node>),
    Object(Record),
}

impl View for Record {
    type V = Fields;

    open spec fn view(&self) -> Fields
        decreases self,
    {
        Seq::new(
            self.entries@.len(),
            |i: int|
                if 0 <= i < self.entries@.len() {
                    (self.entries@[i].0@, self.entries@[i].1.view())
                } else {
                    (Seq::empty(), Json::Null)
                },
        )
    }
}

impl View for Node {
    type V = Json;

    open spec fn view(&self) -> Json
        decreases self,
    {
        match self {
            Node::Null => Json::Null,
            Node::Bool(b) => Json::Bool(*b),
            Node::Int64(i) => Json::Int64(*i),
            Node::UInt64(u) => Json::UInt64(*u),
            Node::Float64(x) => Json::Float64 { bits: x.bits, text: x.text@ },
            Node::Str(s) => Json::Str(s@),
            Node::Array(items) => Json::Array(
                Seq::new(
                    items@.len(),
                    |i: int|
                        if 0 <= i < items@.len() {
                            items@[i].view()
                        } else {
                            Json::Null
                        },
                ),
            ),
            Node::Object(record) => Json::Object(record.view()),
        }
    }
}

/// The bit that holds the sign in the bit pattern of a double.
pub const SIGN_BIT: u64 = 0x8000_0000_0000_0000;

/// The place of a double in the order of numbers, read from its bit pattern:
/// the bits below the sign, counted downwards from zero where the sign is
/// set. In IEEE 754 the bits below the sign grow with the magnitude, so of
/// two doubles that are numbers the greater has the greater rank, and the two
/// zeros have the same one. A pattern that is no number has a rank beyond
/// those of the infinities.
pub open spec fn float_rank(bits: u64) -> int {
    if bits >= SIGN_BIT {
        SIGN_BIT - bits
    } else {
        bits + 0
    }
}

/// The rank of the double with the bit pattern `bits`.
pub fn float_rank_of(bits: u64) -> (rank: i64)
    ensures
        rank == float_rank(bits),
{
    if bits >= SIGN_BIT {
        let magnitude: u64 = bits - SIGN_BIT;
        0 - (magnitude as i64)
    } else {
        bits as i64
    }
}

/// The content of each of `values`.
pub open spec fn contents(values: Seq<Node>) -> Seq<Json> {
    Seq::new(values.len(), |i: int| values[i]@)
}

/// The content of an array node is the content of each of its items.
pub proof fn lemma_array_content(items: Vec<Node>)
    ensures
        Node::Array(items)@ == Json::Array(contents(items@)),
{
    reveal_with_fuel(<Node as View>::view, 2);
    assert(Node::Array(items)@->Array_0 =~= contents(items@));
}

/// The names of `fields`, in order.
pub open spec fn field_names(fields: Fields) -> Seq<Seq<char>> {
    Seq::new(fields.len(), |i: int| fields[i].0)
}

/// The content of the first field of `fields` that is named `name`, if there
/// is one.
pub open spec fn lookup(fields: Fields, name: Seq<char>) -> Option<Json>
    decreases fields.len(),
{
    if fields.len() == 0 {
        None
    } else if fields[0].0 == name {
        Some(fields[0].1)
    } else {
        lookup(fields.drop_first(), name)
    }
}

impl Record {
    /// The content of the first field named `name`, or `None` where the
    /// record has no such field.
    pub fn get(&self, name: &str) -> (found: Option<&Node>)
        ensures
            match found {
                Some(value) => lookup(self@, name@) == Some(value@),
                None => lookup(self@, name@) is None,
            },
    {
        let wanted = String::from_str(name);
        let mut i: usize = 0;
        assert(self@.skip(0) =~= self@);
        while i < self.entries.len()
            invariant
                i <= self.entries@.len(),
                wanted@ == name@,
                lookup(self@, name@) == lookup(self@.skip(i as int), name@),
            decreases self.entries@.len() - i,
        {
            proof {
                assert(self@.skip(i as int).drop_first() =~= self@.skip(i + 1));
            }
            if self.entries[i].0 == wanted {
                return Some(&self.entries[i].1);
            }
            i += 1;
        }
        None
    }

    /// The names of the fields, in order.
    pub fn keys(&self) -> (names: Vec<String>)
        ensures
            names.deep_view() == field_names(self@),
    {
        let mut names: Vec<String> = Vec::new();
        let mut i: usize = 0;
        while i < self.entries.len()
            invariant
                i <= self.entries@.len(),
                names@.len() == i,
                forall|j: int| 0 <= j < i ==> names@[j]@ == self.entries@[j].0@,
            decreases self.entries@.len() - i,
        {
            names.push(self.entries[i].0.clone());
            i += 1;
        }
        assert(names.deep_view() =~= field_names(self@));
        names
    }
}

} // verus!
