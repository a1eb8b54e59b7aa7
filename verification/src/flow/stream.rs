//! Stream declarations of flow schemas.
//!
//! A drip is a stream that provides eventually consistent data; a jet is a fast,
//! possibly lossy stream. Both are descriptive categories of a declared stream.

use vstd::prelude::*;

verus! {

/// How many streams of one name a flow has.
#[derive(Clone, Debug, PartialEq, Eq, Structural)]
pub enum StreamCardinality {
    /// Exactly one stream with this name
    Singleton,
    /// One stream per party (device/user)
    PerParty,
    /// Unbounded number (e.g., threads, topics)
    Unbounded,
}

/// Metadata about a stream as declared in a flow schema.
#[derive(Debug)]
pub struct StreamSpec {
    /// Name of the stream (e.g., "giantt_state", "alice_contributions")
    pub name: String,
    /// Human-readable description
    pub description: Option<String>,
    /// Stream category hint ("drip" for convergent, "jet" for fast/lossy)
    pub category: Option<String>,
    /// Cardinality of the stream
    pub cardinality: StreamCardinality,
}

/// The characters of "drip".
pub open spec fn drip_category() -> Seq<char> {
    seq!['d', 'r', 'i', 'p']
}

/// The characters of "jet".
pub open spec fn jet_category() -> Seq<char> {
    seq!['j', 'e', 't']
}

/// `o` holds a string with the characters `s`.
pub open spec fn holds_str(o: Option<String>, s: Seq<char>) -> bool {
    o matches Some(v) && v@ == s
}

impl StreamSpec {
    /// A singleton stream without category or description.
    pub fn singleton(name: &str) -> (r: Self)
        ensures
            r.name@ == name@,
            r.description is None,
            r.category is None,
            r.cardinality == StreamCardinality::Singleton,
    {
        StreamSpec {
            name: name.to_string(),
            description: None,
            category: None,
            cardinality: StreamCardinality::Singleton,
        }
    }

    /// A singleton stream of category "drip".
    pub fn drip(name: &str) -> (r: Self)
        ensures
            r.name@ == name@,
            r.description is None,
            holds_str(r.category, drip_category()),
            r.cardinality == StreamCardinality::Singleton,
    {
        let category = "drip".to_string();
        proof {
            reveal_strlit("drip");
        }
        assert(category@ =~= drip_category());
        StreamSpec { name: name.to_string(), description: None, category: Some(category), cardinality: StreamCardinality::Singleton }
    }

    /// A stream of category "jet" with the given cardinality.
    pub fn jet(name: &str, cardinality: StreamCardinality) -> (r: Self)
        ensures
            r.name@ == name@,
            r.description is None,
            holds_str(r.category, jet_category()),
            r.cardinality == cardinality,
    {
        let category = "jet".to_string();
        proof {
            reveal_strlit("jet");
        }
        assert(category@ =~= jet_category());
        StreamSpec { name: name.to_string(), description: None, category: Some(category), cardinality }
    }

    /// The same stream with a description.
    pub fn with_description(self, desc: &str) -> (r: Self)
        ensures
            r.name == self.name,
            holds_str(r.description, desc@),
            r.category == self.category,
            r.cardinality == self.cardinality,
    {
        let mut s = self;
        s.description = Some(desc.to_string());
        s
    }
}

} // verus!
