use vstd::prelude::*;

verus! {

/// High level data types.
#[derive(Debug, PartialEq)]
pub enum Data {
    /// Empty
    Empty,
    /// Prim<B>
    Prim(usize),
    /// Struct<T, U, ...>
    Struct(Vec<Data>),
    /// Tuple<T, n>
    Tuple(Box<Data>, usize),
    /// Seq<T>
    Sequence(Box<Data>),
    /// Variant<T, U, ...>
    Variant(Vec<Data>),
}

} // verus!
