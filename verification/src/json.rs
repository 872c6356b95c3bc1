//! JSON documents as the exchange sends them.
use crate::decimal::{parse_double, parsed};
use crate::double::{zero, Double};
use crate::text::same;
use vstd::prelude::*;
use vstd::string::*;

verus! {

/// A JSON document. Of numbers only the non-negative integers below 2^64 are
/// told apart.
#[derive(Debug)]
pub enum Json {
    /// `null`.
    Null,
    /// `true` or `false`.
    Bool(bool),
    /// A non-negative integer below 2^64.
    UInt(u64),
    /// Any other number.
    Number,
    /// A string.
    Text(String),
    /// An array.
    Array(Vec<Json>),
    /// An object, its members in the order in which they are walked.
    Object(Vec<(String, Json)>),
}

/// The value of the first member with this name.
pub open spec fn lookup(members: Seq<(String, Json)>, name: Seq<char>) -> Option<Json>
    decreases members.len(),
{
    if members.len() == 0 {
        None
    } else if members[0].0@ == name {
        Some(members[0].1)
    } else {
        lookup(members.skip(1), name)
    }
}

/// The number that an optional text writes; zero where there is no text or it
/// writes none.
pub open spec fn number_or_zero(text: Option<Seq<char>>) -> Double {
    match text {
        Some(s) => match parsed(s) {
            Some(d) => d,
            None => zero(),
        },
        None => zero(),
    }
}

impl Json {
    /// The member `name` of an object.
    pub open spec fn member(self, name: Seq<char>) -> Option<Json> {
        match self {
            Json::Object(m) => lookup(m@, name),
            _ => None,
        }
    }

    /// The member `name`, `null` where there is none.
    pub open spec fn at(self, name: Seq<char>) -> Json {
        match self.member(name) {
            Some(j) => j,
            None => Json::Null,
        }
    }

    /// The text of a string.
    pub open spec fn text(self) -> Option<Seq<char>> {
        match self {
            Json::Text(s) => Some(s@),
            _ => None,
        }
    }

    /// The members of an object.
    pub open spec fn members(self) -> Option<Seq<(String, Json)>> {
        match self {
            Json::Object(m) => Some(m@),
            _ => None,
        }
    }

    /// The items of an array.
    pub open spec fn items(self) -> Option<Seq<Json>> {
        match self {
            Json::Array(v) => Some(v@),
            _ => None,
        }
    }

    /// The first item of an array.
    pub open spec fn first(self) -> Option<Json> {
        match self {
            Json::Array(v) => if v@.len() > 0 {
                Some(v@[0])
            } else {
                None
            },
            _ => None,
        }
    }

    /// The number that the string member `name` writes, or zero.
    pub open spec fn number_at(self, name: Seq<char>) -> Double {
        number_or_zero(self.at(name).text())
    }

    /// The non-negative integer at `name`, or `fallback`.
    pub open spec fn uint_at(self, name: Seq<char>, fallback: u64) -> u64 {
        match self.at(name) {
            Json::UInt(n) => n,
            _ => fallback,
        }
    }

    /// The member `name` of an object.
    pub fn get(&self, name: &str) -> (r: Option<&Json>)
        ensures
            match r {
                Some(j) => self.member(name@) == Some(*j),
                None => self.member(name@) is None,
            },
    {
        match self {
            Json::Object(m) => {
                let mut i: usize = 0;
                assert(m@.skip(0) =~= m@);
                while i < m.len()
                    invariant
                        i <= m@.len(),
                        self.member(name@) == lookup(m@, name@),
                        lookup(m@, name@) == lookup(m@.skip(i as int), name@),
                    decreases m@.len() - i,
                {
                    assert(m@.skip(i as int).skip(1) =~= m@.skip(i as int + 1));
                    if same(m[i].0.as_str(), name) {
                        return Some(&m[i].1);
                    }
                    i = i + 1;
                }
                None
            },
            _ => None,
        }
    }

    /// The text of a string.
    pub fn as_text(&self) -> (r: Option<&String>)
        ensures
            match r {
                Some(s) => self.text() == Some(s@),
                None => self.text() is None,
            },
    {
        match self {
            Json::Text(s) => Some(s),
            _ => None,
        }
    }

    /// The text of the string member `name`.
    pub fn text_at(&self, name: &str) -> (r: Option<&String>)
        ensures
            match r {
                Some(s) => self.at(name@).text() == Some(s@),
                None => self.at(name@).text() is None,
            },
    {
        match self.get(name) {
            Some(j) => j.as_text(),
            None => None,
        }
    }

    /// The number that the string member `name` writes, or zero.
    pub fn read_number(&self, name: &str) -> (d: Double)
        ensures
            d == self.number_at(name@),
    {
        match self.text_at(name) {
            Some(s) => match parse_double(s.as_str()) {
                Some(d) => d,
                None => Double::zero(),
            },
            None => Double::zero(),
        }
    }

    /// The non-negative integer at `name`, or `fallback`.
    pub fn read_uint(&self, name: &str, fallback: u64) -> (n: u64)
        ensures
            n == self.uint_at(name@, fallback),
    {
        match self.get(name) {
            Some(j) => match j {
                Json::UInt(n) => *n,
                _ => fallback,
            },
            None => fallback,
        }
    }
}

} // verus!
