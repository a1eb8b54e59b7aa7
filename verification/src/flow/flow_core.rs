//! Flow schemas: the streams a flow type must have.

use vstd::prelude::*;
use super::stream::StreamSpec;

verus! {

/// Schema defining what streams a flow type must have.
#[derive(Debug)]
pub struct FlowSchema {
    /// Human-readable name for this flow type
    pub name: String,
    /// Stream specifications
    pub streams: Vec<StreamSpec>,
}

impl FlowSchema {
    /// A schema with no streams yet.
    pub fn new(name: &str) -> (r: Self)
        ensures
            r.name@ == name@,
            r.streams@.len() == 0,
    {
        FlowSchema { name: name.to_string(), streams: Vec::new() }
    }

    /// The same schema with one more stream, declared last.
    pub fn with_stream(self, spec: StreamSpec) -> (r: Self)
        ensures
            r.name == self.name,
            r.streams@ == self.streams@.push(spec),
    {
        let mut s = self;
        s.streams.push(spec);
        s
    }

    /// Some declared stream has the name `name`.
    pub open spec fn declares(&self, name: Seq<char>) -> bool {
        exists|i: int| 0 <= i < self.streams@.len() && #[trigger] self.streams@[i].name@ == name
    }

    /// Whether a stream of this name is declared; a flow registers only declared streams.
    pub fn declares_stream(&self, name: &str) -> (r: bool)
        ensures
            r == self.declares(name@),
    {
        let mut i: usize = 0;
        while i < self.streams.len()
            invariant
                0 <= i <= self.streams@.len(),
                forall|k: int| 0 <= k < i ==> #[trigger] self.streams@[k].name@ != name@,
            decreases self.streams@.len() - i,
        {
            if string_eq(&self.streams[i].name, name) {
                return true;
            }
            i = i + 1;
        }
        false
    }
}

/// Character-wise equality of a string and a string slice.
pub fn string_eq(a: &String, b: &str) -> (r: bool)
    ensures
        r == (a@ == b@),
{
    let a_str = a.as_str();
    let n = a_str.unicode_len();
    if n != b.unicode_len() {
        return false;
    }
    let mut i: usize = 0;
    while i < n
        invariant
            n == a@.len(),
            n == b@.len(),
            0 <= i <= n,
            a_str@ == a@,
            forall|k: int| 0 <= k < i ==> a@[k] == b@[k],
        decreases n - i,
    {
        if a_str.get_char(i) != b.get_char(i) {
            return false;
        }
        i = i + 1;
    }
    assert(a@ =~= b@);
    true
}

} // verus!
