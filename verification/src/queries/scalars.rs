//! Scalar values that the start.gg API exchanges.

use vstd::prelude::*;

use crate::text::{i64_to_string, int_decimal, u64_to_string};

verus! {

/// A start.gg object id, kept as its decimal or opaque text form.
#[derive(Debug, Clone)]
pub struct StartggId(IdString);

#[derive(Debug, Clone)]
struct IdString(String);

/// The JSON shapes in which the API sends an id: a string or a number.
pub enum IdInput {
    Str(String),
    I64(i64),
    U64(u64),
}

impl View for StartggId {
    type V = Seq<char>;

    closed spec fn view(&self) -> Seq<char> {
        self.0.0@
    }
}

impl IdString {
    fn as_str(&self) -> (res: &str)
        ensures
            res@ == self.0@,
    {
        self.0.as_str()
    }
}

impl StartggId {
    /// The id's text.
    pub fn as_string(&self) -> (res: &str)
        ensures
            res@ == self@,
    {
        self.0.as_str()
    }

    /// An id with the given text.
    pub fn from_text(value: &str) -> (res: StartggId)
        ensures
            res@ == value@,
    {
        StartggId(IdString(String::from_str(value)))
    }

    /// An id given as a number: its decimal text.
    pub fn from_i64(value: i64) -> (res: StartggId)
        ensures
            res@ == int_decimal(value as int),
    {
        StartggId(IdString(i64_to_string(value)))
    }

    /// The id that a JSON string or number stands for: strings are kept as
    /// they are, numbers become their decimal text.
    pub fn from_input(input: IdInput) -> (res: StartggId)
        ensures
            res@ == match input {
                IdInput::Str(s) => s@,
                IdInput::I64(n) => int_decimal(n as int),
                IdInput::U64(n) => int_decimal(n as int),
            },
    {
        match input {
            IdInput::Str(s) => StartggId(IdString(s)),
            IdInput::I64(n) => StartggId(IdString(i64_to_string(n))),
            IdInput::U64(n) => StartggId(IdString(u64_to_string(n))),
        }
    }
}

} // verus!
