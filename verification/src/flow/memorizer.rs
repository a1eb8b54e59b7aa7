//! A piece's cache of a flow's operations, so that it can serve peers that
//! reconnect: operations are kept once each (by id), the oldest leave first
//! once the cache is full, and a causal horizon records, per author, the
//! highest sequence number observed.
//!
//! An operation is held as what the cache reads of it (id, author, sequence
//! number) and its encoded envelope.

use vstd::prelude::*;

verus! {

/// Per author, the highest sequence number seen so far.
pub struct Horizon {
    authors: Vec<String>,
    seqs: Vec<u64>,
}

/// The position of `a` among `authors` (meaningful where it occurs).
pub open spec fn author_index(authors: Seq<String>, a: Seq<char>) -> int {
    choose|i: int| 0 <= i < authors.len() && (#[trigger] authors[i])@ == a
}

/// Whether `a` occurs among `authors`.
pub open spec fn has_author(authors: Seq<String>, a: Seq<char>) -> bool {
    exists|i: int| 0 <= i < authors.len() && (#[trigger] authors[i])@ == a
}

/// No author occurs twice.
pub open spec fn authors_distinct(authors: Seq<String>) -> bool {
    forall|i: int, j: int|
        0 <= i < authors.len() && 0 <= j < authors.len() && i != j ==> (#[trigger] authors[i])@
            != (#[trigger] authors[j])@
}

impl View for Horizon {
    type V = Map<Seq<char>, u64>;

    closed spec fn view(&self) -> Map<Seq<char>, u64> {
        Map::new(
            |a: Seq<char>| has_author(self.authors@, a),
            |a: Seq<char>| self.seqs@[author_index(self.authors@, a)],
        )
    }
}

/// The value observing `seq` of an author leaves in a horizon `h`.
pub open spec fn observed_seq(h: Map<Seq<char>, u64>, author: Seq<char>, seq: u64) -> u64 {
    if h.contains_key(author) && h[author] > seq {
        h[author]
    } else {
        seq
    }
}

/// Whether a horizon `h` covers sequence number `seq` of `author`.
pub open spec fn covers(h: Map<Seq<char>, u64>, author: Seq<char>, seq: u64) -> bool {
    h.contains_key(author) && seq <= h[author]
}

impl Horizon {
    #[verifier::type_invariant]
    spec fn well_formed(&self) -> bool {
        &&& self.authors@.len() == self.seqs@.len()
        &&& authors_distinct(self.authors@)
    }

    proof fn lemma_view_at(&self, i: int)
        requires
            self.well_formed(),
            0 <= i < self.authors@.len(),
        ensures
            self@.contains_key(self.authors@[i]@),
            self@[self.authors@[i]@] == self.seqs@[i],
    {
        let a = self.authors@[i]@;
        assert(has_author(self.authors@, a));
        let k = author_index(self.authors@, a);
        assert(self.authors@[k]@ == a);
    }

    /// A horizon that has seen nothing.
    pub fn new() -> (h: Self)
        ensures
            h@ == Map::<Seq<char>, u64>::empty(),
    {
        let h = Horizon { authors: Vec::new(), seqs: Vec::new() };
        assert(h@ =~= Map::<Seq<char>, u64>::empty());
        h
    }

    /// A horizon that has seen `author` up to `seq`.
    pub fn at(author: &str, seq: u64) -> (h: Self)
        ensures
            h@ == Map::<Seq<char>, u64>::empty().insert(author@, seq),
    {
        let mut authors: Vec<String> = Vec::new();
        authors.push(author.to_owned());
        let mut seqs: Vec<u64> = Vec::new();
        seqs.push(seq);
        let h = Horizon { authors, seqs };
        proof {
            h.lemma_view_at(0);
            assert forall|a: Seq<char>| h@.contains_key(a) implies a == author@ by {
                let i = choose|i: int| 0 <= i < h.authors@.len() && (#[trigger] h.authors@[i])@ == a;
                assert(i == 0);
            }
            assert(h@ =~= Map::<Seq<char>, u64>::empty().insert(author@, seq));
        }
        h
    }

    /// Whether `seq` of `author` has been seen.
    pub fn has_seen(&self, author: &str, seq: u64) -> (r: bool)
        ensures
            r == covers(self@, author@, seq),
    {
        proof {
            use_type_invariant(self);
        }
        let name = author.to_owned();
        let mut i: usize = 0;
        while i < self.authors.len()
            invariant
                self.well_formed(),
                name@ == author@,
                0 <= i <= self.authors@.len(),
                forall|k: int| 0 <= k < i ==> (#[trigger] self.authors@[k])@ != author@,
            decreases self.authors@.len() - i,
        {
            if self.authors[i] == name {
                proof {
                    self.lemma_view_at(i as int);
                }
                return seq <= self.seqs[i];
            }
            i = i + 1;
        }
        false
    }

    /// Records that `author` has been seen up to `seq`; a higher number seen
    /// before stays.
    pub fn observe(&mut self, author: &str, seq: u64)
        ensures
            final(self)@ == old(self)@.insert(author@, observed_seq(old(self)@, author@, seq)),
    {
        proof {
            use_type_invariant(&*self);
        }
        let ghost before = self@;
        let mut taken = Horizon::new();
        std::mem::swap(&mut taken, self);
        proof {
            use_type_invariant(&taken);
        }
        let Horizon { mut authors, mut seqs } = taken;
        let ghost old_h = Horizon { authors, seqs };
        assert(old_h@ == before);
        let name = author.to_owned();
        let mut i: usize = 0;
        while i < authors.len()
            invariant
                authors@ == old_h.authors@,
                seqs@ == old_h.seqs@,
                old_h.well_formed(),
                name@ == author@,
                0 <= i <= authors@.len(),
                forall|k: int| 0 <= k < i ==> (#[trigger] authors@[k])@ != author@,
            ensures
                0 <= i <= authors@.len(),
                forall|k: int| 0 <= k < i ==> (#[trigger] authors@[k])@ != author@,
                i < authors@.len() ==> authors@[i as int]@ == author@,
            decreases authors@.len() - i,
        {
            if authors[i] == name {
                break;
            }
            i = i + 1;
        }
        if i < authors.len() {
            proof {
                old_h.lemma_view_at(i as int);
            }
            let cur = seqs[i];
            let next = if cur > seq { cur } else { seq };
            seqs.set(i, next);
            let ghost new_h = Horizon { authors, seqs };
            proof {
                assert(new_h.well_formed());
                new_h.lemma_view_at(i as int);
                assert(new_h.authors@ == old_h.authors@);
                assert forall|a: Seq<char>| #[trigger] new_h@.contains_key(a) == old_h@.insert(
                    author@,
                    next,
                ).contains_key(a) by {
                    if a == author@ {
                        assert(authors@[i as int]@ == author@);
                        assert(has_author(new_h.authors@, a));
                    }
                }
                assert forall|a: Seq<char>| new_h@.contains_key(a) && a != author@ implies #[trigger] new_h@[a]
                    == old_h@[a] by {
                    let k = choose|k: int| 0 <= k < authors@.len() && (#[trigger] authors@[k])@ == a;
                    new_h.lemma_view_at(k);
                    old_h.lemma_view_at(k);
                }
                assert(new_h@ =~= old_h@.insert(author@, next));
            }
            *self = Horizon { authors, seqs };
        } else {
            proof {
                assert(!old_h@.contains_key(author@)) by {
                    if has_author(authors@, author@) {
                        let k = choose|k: int| 0 <= k < authors@.len() && (#[trigger] authors@[k])@ == author@;
                        assert(authors@[k]@ != author@);
                    }
                }
            }
            authors.push(name);
            seqs.push(seq);
            let ghost new_h = Horizon { authors, seqs };
            proof {
                assert(new_h.well_formed());
                new_h.lemma_view_at(i as int);
                assert forall|a: Seq<char>| #[trigger] new_h@.contains_key(a) == old_h@.insert(
                    author@,
                    seq,
                ).contains_key(a) by {
                    if has_author(authors@, a) {
                        let k = choose|k: int| 0 <= k < authors@.len() && (#[trigger] authors@[k])@ == a;
                        if k < i {
                            old_h.lemma_view_at(k);
                        }
                    }
                    if has_author(old_h.authors@, a) {
                        let k = choose|k: int| 0 <= k < old_h.authors@.len() && (#[trigger] old_h.authors@[k])@ == a;
                        assert(authors@[k] == old_h.authors@[k]);
                    }
                }
                assert forall|a: Seq<char>| new_h@.contains_key(a) && a != author@ implies #[trigger] new_h@[a]
                    == old_h@[a] by {
                    let k = choose|k: int| 0 <= k < authors@.len() && (#[trigger] authors@[k])@ == a;
                    new_h.lemma_view_at(k);
                    assert(k < i);
                    old_h.lemma_view_at(k);
                }
                assert(new_h@ =~= old_h@.insert(author@, seq));
            }
            *self = Horizon { authors, seqs };
        }
    }

    /// A copy of this horizon.
    pub fn copy(&self) -> (r: Self)
        ensures
            r@ == self@,
    {
        proof {
            use_type_invariant(self);
        }
        let mut authors: Vec<String> = Vec::new();
        let mut seqs: Vec<u64> = Vec::new();
        let mut i: usize = 0;
        while i < self.authors.len()
            invariant
                self.well_formed(),
                0 <= i <= self.authors@.len(),
                authors@.len() == i,
                seqs@ == self.seqs@.take(i as int),
                forall|k: int| 0 <= k < i ==> (#[trigger] authors@[k])@ == self.authors@[k]@,
            decreases self.authors@.len() - i,
        {
            authors.push(self.authors[i].clone());
            seqs.push(self.seqs[i]);
            assert(seqs@ =~= self.seqs@.take(i + 1));
            i = i + 1;
        }
        let r = Horizon { authors, seqs };
        proof {
            assert(seqs@ =~= self.seqs@);
            assert(r.well_formed());
            assert forall|a: Seq<char>| #[trigger] r@.contains_key(a) == self@.contains_key(a) by {
                if has_author(r.authors@, a) {
                    let k = choose|k: int| 0 <= k < r.authors@.len() && (#[trigger] r.authors@[k])@ == a;
                    self.lemma_view_at(k);
                }
                if has_author(self.authors@, a) {
                    let k = choose|k: int| 0 <= k < self.authors@.len() && (#[trigger] self.authors@[k])@ == a;
                    r.lemma_view_at(k);
                }
            }
            assert forall|a: Seq<char>| r@.contains_key(a) implies #[trigger] r@[a] == self@[a] by {
                let k = choose|k: int| 0 <= k < r.authors@.len() && (#[trigger] r.authors@[k])@ == a;
                r.lemma_view_at(k);
                self.lemma_view_at(k);
            }
            assert(r@ =~= self@);
        }
        r
    }
}

/// What the cache holds of one operation.
pub struct CachedOp {
    pub id: u128,
    pub author: String,
    pub seq: u64,
    /// The encoded operation envelope.
    pub payload: Vec<u8>,
}

impl View for CachedOp {
    type V = (u128, Seq<char>, u64, Seq<u8>);

    open spec fn view(&self) -> (u128, Seq<char>, u64, Seq<u8>) {
        (self.id, self.author@, self.seq, self.payload@)
    }
}

impl CachedOp {
    /// A copy of this operation.
    pub fn copy(&self) -> (r: Self)
        ensures
            r@ == self@,
    {
        CachedOp {
            id: self.id,
            author: self.author.clone(),
            seq: self.seq,
            payload: self.payload.clone(),
        }
    }
}

/// The operations as values.
pub open spec fn op_views(ops: Seq<CachedOp>) -> Seq<(u128, Seq<char>, u64, Seq<u8>)> {
    ops.map_values(|o: CachedOp| o@)
}

/// Whether an operation with `id` is among `ops`.
pub open spec fn holds_id(ops: Seq<(u128, Seq<char>, u64, Seq<u8>)>, id: u128) -> bool {
    exists|i: int| 0 <= i < ops.len() && (#[trigger] ops[i]).0 == id
}

/// No id occurs twice.
pub open spec fn ids_distinct(ops: Seq<(u128, Seq<char>, u64, Seq<u8>)>) -> bool {
    forall|i: int, j: int| 0 <= i < j < ops.len() ==> (#[trigger] ops[i]).0 != (#[trigger] ops[j]).0
}

/// The cache after adding `op` to `ops` when it holds at most `max_ops`.
pub open spec fn cached_after(
    ops: Seq<(u128, Seq<char>, u64, Seq<u8>)>,
    op: (u128, Seq<char>, u64, Seq<u8>),
    max_ops: nat,
) -> Seq<(u128, Seq<char>, u64, Seq<u8>)> {
    if holds_id(ops, op.0) {
        ops
    } else if ops.len() + 1 > max_ops {
        ops.push(op).drop_first()
    } else {
        ops.push(op)
    }
}

/// The operations of `ops` that horizon `h` does not cover, in order.
pub open spec fn unseen(
    ops: Seq<(u128, Seq<char>, u64, Seq<u8>)>,
    h: Map<Seq<char>, u64>,
) -> Seq<(u128, Seq<char>, u64, Seq<u8>)> {
    ops.filter(|o: (u128, Seq<char>, u64, Seq<u8>)| !covers(h, o.1, o.2))
}

/// Caching an operation a second time changes nothing, from any cache within
/// its capacity and without repeated ids.
pub proof fn lemma_cache_twice(
    ops: Seq<(u128, Seq<char>, u64, Seq<u8>)>,
    op: (u128, Seq<char>, u64, Seq<u8>),
    max_ops: nat,
)
    requires
        ids_distinct(ops),
        ops.len() <= max_ops,
    ensures
        cached_after(cached_after(ops, op, max_ops), op, max_ops) == cached_after(ops, op, max_ops),
{
    let once = cached_after(ops, op, max_ops);
    if !holds_id(ops, op.0) {
        if max_ops == 0 {
            assert(ops.push(op).drop_first() =~= Seq::<(u128, Seq<char>, u64, Seq<u8>)>::empty());
            assert(!holds_id(once, op.0));
        } else {
            assert(once[once.len() - 1] == op);
            assert(holds_id(once, op.0));
        }
    }
}

/// Caching an operation whose id is new keeps the newest operations: the new one comes
/// last, after the most recent of the old ones in their order, and the oldest leave
/// first so that the cache holds as many as fit, at most `max_ops`. An operation whose
/// id is cached already changes nothing.
pub proof fn lemma_cache_keeps_newest(
    ops: Seq<(u128, Seq<char>, u64, Seq<u8>)>,
    op: (u128, Seq<char>, u64, Seq<u8>),
    max_ops: nat,
)
    requires
        ops.len() <= max_ops,
    ensures
        (exists|i: int| 0 <= i < ops.len() && ops[i].0 == op.0) ==> cached_after(ops, op, max_ops) == ops,
        !(exists|i: int| 0 <= i < ops.len() && ops[i].0 == op.0) && max_ops > 0 ==> {
            let c = cached_after(ops, op, max_ops);
            let kept = c.len() - 1;
            &&& c.len() == if ops.len() + 1 > max_ops {
                max_ops as int
            } else {
                ops.len() + 1 as int
            }
            &&& c[c.len() - 1] == op
            &&& forall|i: int| 0 <= i < kept ==> #[trigger] c[i] == ops[ops.len() - kept + i]
        },
{
    if !(exists|i: int| 0 <= i < ops.len() && ops[i].0 == op.0) {
        assert(!holds_id(ops, op.0));
    } else {
        let i = choose|i: int| 0 <= i < ops.len() && ops[i].0 == op.0;
        assert(holds_id(ops, op.0));
    }
}

/// Observing keeps the highest sequence number: the recorded number never drops and
/// covers what was observed.
pub proof fn lemma_observed_highest(h: Map<Seq<char>, u64>, author: Seq<char>, seq: u64)
    ensures
        observed_seq(h, author, seq) >= seq,
        h.contains_key(author) ==> observed_seq(h, author, seq) >= h[author],
        observed_seq(h, author, seq) == seq || (h.contains_key(author) && observed_seq(h, author, seq)
            == h[author]),
{
}

/// A horizon that has seen nothing leaves every operation unseen.
pub proof fn lemma_nothing_seen(ops: Seq<(u128, Seq<char>, u64, Seq<u8>)>)
    ensures
        unseen(ops, Map::<Seq<char>, u64>::empty()) == ops,
    decreases ops.len(),
{
    let pred = |o: (u128, Seq<char>, u64, Seq<u8>)| !covers(Map::<Seq<char>, u64>::empty(), o.1, o.2);
    if ops.len() > 0 {
        lemma_nothing_seen(ops.drop_last());
        ops.drop_last().lemma_filter_push(ops.last(), pred);
        assert(ops.drop_last().push(ops.last()) =~= ops);
    } else {
        reveal(Seq::filter);
        assert(ops.filter(pred) =~= ops);
    }
}

/// Once an operation has been observed, the horizon covers it.
pub proof fn lemma_observed_is_seen(h: Map<Seq<char>, u64>, author: Seq<char>, seq: u64)
    ensures
        covers(h.insert(author, observed_seq(h, author, seq)), author, seq),
{
}

/// Caches a flow's operations for peers that reconnect.
pub struct AccessoryMemorizer {
    pub flow_id: u128,
    cached_ops: Vec<CachedOp>,
    horizon: Horizon,
    max_ops: usize,
}

impl AccessoryMemorizer {
    /// The cached operations, oldest first.
    pub closed spec fn cached(&self) -> Seq<(u128, Seq<char>, u64, Seq<u8>)> {
        op_views(self.cached_ops@)
    }

    /// The flow whose operations are cached.
    pub closed spec fn flow(&self) -> u128 {
        self.flow_id
    }

    /// The horizon of the operations cached so far.
    pub closed spec fn seen(&self) -> Map<Seq<char>, u64> {
        self.horizon@
    }

    /// The most operations kept.
    pub closed spec fn capacity(&self) -> nat {
        self.max_ops as nat
    }

    /// No id is cached twice and the cache is within its capacity.
    pub open spec fn well_formed(&self) -> bool {
        &&& ids_distinct(self.cached())
        &&& self.cached().len() <= self.capacity()
    }

    /// An empty cache for `flow_id` that keeps at most `max_ops` operations.
    pub fn new(flow_id: u128, max_ops: usize) -> (m: Self)
        ensures
            m.well_formed(),
            m.flow() == flow_id,
            m.cached() == Seq::<(u128, Seq<char>, u64, Seq<u8>)>::empty(),
            m.seen() == Map::<Seq<char>, u64>::empty(),
            m.capacity() == max_ops,
    {
        let m = AccessoryMemorizer { flow_id, cached_ops: Vec::new(), horizon: Horizon::new(), max_ops };
        assert(m.cached() =~= Seq::<(u128, Seq<char>, u64, Seq<u8>)>::empty());
        m
    }

    /// Caches `op` unless an operation with its id is cached already. A new
    /// operation is observed in the horizon and appended; when that makes the
    /// cache exceed its capacity, the oldest operation leaves.
    pub fn cache_operation(&mut self, op: CachedOp)
        requires
            old(self).well_formed(),
        ensures
            final(self).well_formed(),
            final(self).flow() == old(self).flow(),
            final(self).capacity() == old(self).capacity(),
            final(self).cached() == cached_after(old(self).cached(), op@, old(self).capacity()),
            final(self).seen() == if holds_id(old(self).cached(), op.id) {
                old(self).seen()
            } else {
                old(self).seen().insert(op.author@, observed_seq(old(self).seen(), op.author@, op.seq))
            },
    {
        let ghost before = self.cached();
        let mut i: usize = 0;
        while i < self.cached_ops.len()
            invariant
                0 <= i <= self.cached_ops@.len(),
                before == op_views(self.cached_ops@),
                self.well_formed(),
                forall|k: int| 0 <= k < i ==> (#[trigger] before[k]).0 != op.id,
            decreases self.cached_ops@.len() - i,
        {
            if self.cached_ops[i].id == op.id {
                proof {
                    assert(before[i as int].0 == op.id);
                }
                return;
            }
            i = i + 1;
        }
        self.horizon.observe(op.author.as_str(), op.seq);
        let ghost op_view = op@;
        self.cached_ops.push(op);
        proof {
            assert(op_views(self.cached_ops@) =~= before.push(op_view));
        }
        if self.cached_ops.len() > self.max_ops {
            self.cached_ops.remove(0);
            proof {
                assert(op_views(self.cached_ops@) =~= before.push(op_view).drop_first());
            }
        }
    }

    /// Copies of the cached operations that `since` does not cover, oldest first.
    pub fn operations_since(&self, since: &Horizon) -> (r: Vec<CachedOp>)
        ensures
            op_views(r@) == unseen(self.cached(), since@),
    {
        let ghost all = self.cached();
        let ghost pred = |o: (u128, Seq<char>, u64, Seq<u8>)| !covers(since@, o.1, o.2);
        let mut r: Vec<CachedOp> = Vec::new();
        let mut i: usize = 0;
        while i < self.cached_ops.len()
            invariant
                0 <= i <= self.cached_ops@.len(),
                all == op_views(self.cached_ops@),
                pred == (|o: (u128, Seq<char>, u64, Seq<u8>)| !covers(since@, o.1, o.2)),
                op_views(r@) == all.take(i as int).filter(pred),
            decreases self.cached_ops@.len() - i,
        {
            let o = &self.cached_ops[i];
            let seen = since.has_seen(o.author.as_str(), o.seq);
            proof {
                assert(all.take(i + 1) =~= all.take(i as int).push(all[i as int]));
                all.take(i as int).lemma_filter_push(all[i as int], pred);
            }
            if !seen {
                let c = o.copy();
                r.push(c);
                proof {
                    assert(op_views(r@) =~= all.take(i as int).filter(pred).push(all[i as int]));
                }
            }
            i = i + 1;
        }
        proof {
            assert(all.take(self.cached_ops@.len() as int) =~= all);
        }
        r
    }

    /// The horizon of the cached operations.
    pub fn horizon(&self) -> (h: Horizon)
        ensures
            h@ == self.seen(),
    {
        self.horizon.copy()
    }

    /// How many operations are cached.
    pub fn cached_count(&self) -> (n: usize)
        ensures
            n == self.cached().len(),
    {
        self.cached_ops.len()
    }
}

} // verus!
