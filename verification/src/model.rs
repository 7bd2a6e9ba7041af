//! The objects, morphisms and functors that categories are made of.
//!
//! Real-valued quantities (strengths, probabilities, timestamps, property
//! values) are carried as the IEEE-754 bit patterns of their `f64` values: the
//! library moves them about and never computes with them; arithmetic on them is
//! handed in by the caller.

use vstd::prelude::*;
use crate::strmap::StrMap;

verus! {

/// An object of a category.
#[derive(Debug, Clone)]
pub struct Object {
    pub id: String,
    pub object_type: String,
    /// Named real-valued properties, each as the bit pattern of an `f64`.
    pub properties: StrMap<u64>,
}

/// A morphism between two objects, named by their ids.
#[derive(Debug, Clone)]
pub struct Morphism {
    pub source: String,
    pub target: String,
    pub morphism_type: String,
    /// Bit pattern of the `f64` strength.
    pub strength: u64,
    pub evidence: Vec<String>,
    /// Bit pattern of the `f64` timestamp, for temporal data.
    pub timestamp: Option<u64>,
}

/// A pattern found among objects.
#[derive(Debug)]
pub struct Pattern {
    pub pattern_type: String,
    pub objects: Vec<String>,
    /// Bit pattern of the `f64` confidence.
    pub confidence: u64,
}

/// How a functor relates its levels.
#[derive(Debug, Clone)]
pub enum FunctorDirection {
    Lift,
    Project,
    Endo,
}

/// A functor between the categories of two levels, given by where it sends
/// each object.
#[derive(Debug, Clone)]
pub struct Functor {
    pub name: String,
    pub source_level: u32,
    pub target_level: u32,
    pub direction: FunctorDirection,
    pub object_map: StrMap<String>,
}

/// A value of a flat record: text, or the bit pattern of an `f64` number.
#[derive(Debug, Clone)]
pub enum FieldValue {
    Text(String),
    Number(u64),
}

/// The texts of a sequence of strings.
pub open spec fn texts(v: Seq<String>) -> Seq<Seq<char>> {
    v.map_values(|s: String| s@)
}

/// The view of a map whose values are strings, as a map of texts.
pub open spec fn text_map(m: Map<Seq<char>, String>) -> Map<Seq<char>, Seq<char>> {
    m.map_values(|s: String| s@)
}

/// The bit pattern of the `f64` value 0.0.
pub const ZERO_BITS: u64 = 0;

/// The bit pattern of the `f64` value 0.5.
pub const HALF_BITS: u64 = 0x3FE0_0000_0000_0000;

impl Functor {
    /// Whether the functor maps a level to itself.
    pub fn is_endofunctor(&self) -> (b: bool)
        ensures
            b == (self.source_level == self.target_level),
    {
        self.source_level == self.target_level
    }
}

/// A copy of a list of strings.
pub fn copy_strings(v: &Vec<String>) -> (r: Vec<String>)
    ensures
        r@ == v@,
{
    let mut r: Vec<String> = Vec::new();
    let mut i: usize = 0;
    while i < v.len()
        invariant
            i <= v@.len(),
            r@ == v@.subrange(0, i as int),
        decreases v@.len() - i,
    {
        r.push(v[i].clone());
        i = i + 1;
        assert(r@ =~= v@.subrange(0, i as int));
    }
    assert(v@.subrange(0, v@.len() as int) =~= v@);
    r
}

/// A list holding one owned copy of `s`.
pub fn single_text(s: &str) -> (r: Vec<String>)
    ensures
        texts(r@) == seq![s@],
{
    let mut r: Vec<String> = Vec::new();
    r.push(s.to_owned());
    assert(texts(r@) =~= seq![s@]);
    r
}

} // verus!
