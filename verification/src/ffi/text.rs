//! Strings: lexicographic order, sorting and joining.

use vstd::prelude::*;
use vstd::relations::{sorted_by, total_ordering, reflexive, antisymmetric, transitive, strongly_connected};
use vstd::seq_lib::lemma_sorted_unique;
use vstd::string::StringExecFns;

verus! {

/// Lexicographic order of character sequences, by code point (the order of `String`).
pub open spec fn lex_le(a: Seq<char>, b: Seq<char>) -> bool
    decreases a.len(),
{
    if a.len() == 0 {
        true
    } else if b.len() == 0 {
        false
    } else if a[0] != b[0] {
        (a[0] as int) < (b[0] as int)
    } else {
        lex_le(a.drop_first(), b.drop_first())
    }
}

/// The order as a relation.
pub open spec fn text_order() -> spec_fn(Seq<char>, Seq<char>) -> bool {
    |a: Seq<char>, b: Seq<char>| lex_le(a, b)
}

/// The characters of each string.
pub open spec fn texts(v: Seq<String>) -> Seq<Seq<char>> {
    v.map_values(|s: String| s@)
}

/// The texts in ascending order.
pub open spec fn sorted_texts(v: Seq<Seq<char>>) -> Seq<Seq<char>> {
    v.sort_by(text_order())
}

/// The parts with `sep` between each two.
pub open spec fn join(parts: Seq<Seq<char>>, sep: Seq<char>) -> Seq<char>
    decreases parts.len(),
{
    if parts.len() == 0 {
        Seq::empty()
    } else if parts.len() == 1 {
        parts[0]
    } else {
        join(parts.drop_last(), sep) + sep + parts.last()
    }
}

proof fn lemma_lex_reflexive(a: Seq<char>)
    ensures
        lex_le(a, a),
    decreases a.len(),
{
    if a.len() > 0 {
        lemma_lex_reflexive(a.drop_first());
    }
}

proof fn lemma_lex_antisymmetric(a: Seq<char>, b: Seq<char>)
    requires
        lex_le(a, b),
        lex_le(b, a),
    ensures
        a == b,
    decreases a.len(),
{
    if a.len() > 0 && b.len() > 0 {
        if a[0] == b[0] {
            lemma_lex_antisymmetric(a.drop_first(), b.drop_first());
            assert(a =~= seq![a[0]] + a.drop_first());
            assert(b =~= seq![b[0]] + b.drop_first());
        } else {
            assert((a[0] as int) != (b[0] as int));
        }
    } else {
        assert(a.len() == 0 && b.len() == 0);
        assert(a =~= b);
    }
}

proof fn lemma_lex_transitive(a: Seq<char>, b: Seq<char>, c: Seq<char>)
    requires
        lex_le(a, b),
        lex_le(b, c),
    ensures
        lex_le(a, c),
    decreases a.len(),
{
    if a.len() > 0 && b.len() > 0 && c.len() > 0 {
        if a[0] == b[0] && b[0] == c[0] {
            lemma_lex_transitive(a.drop_first(), b.drop_first(), c.drop_first());
        }
    }
}

proof fn lemma_lex_connected(a: Seq<char>, b: Seq<char>)
    ensures
        lex_le(a, b) || lex_le(b, a),
    decreases a.len(),
{
    if a.len() > 0 && b.len() > 0 {
        if a[0] == b[0] {
            lemma_lex_connected(a.drop_first(), b.drop_first());
        } else {
            assert((a[0] as int) != (b[0] as int));
        }
    }
}

/// Lexicographic order is a total order.
pub proof fn lemma_text_order_total()
    ensures
        total_ordering(text_order()),
{
    assert forall|a: Seq<char>| #[trigger] text_order()(a, a) by {
        lemma_lex_reflexive(a);
    }
    assert(reflexive(text_order()));
    assert forall|a: Seq<char>, b: Seq<char>| #[trigger] text_order()(a, b) && #[trigger] text_order()(b, a) implies a == b by {
        lemma_lex_antisymmetric(a, b);
    }
    assert(antisymmetric(text_order()));
    assert forall|a: Seq<char>, b: Seq<char>, c: Seq<char>|
        #[trigger] text_order()(a, b) && #[trigger] text_order()(b, c) implies text_order()(a, c) by {
        lemma_lex_transitive(a, b, c);
    }
    assert(transitive(text_order()));
    assert forall|a: Seq<char>, b: Seq<char>| #[trigger] text_order()(a, b) || text_order()(b, a) by {
        lemma_lex_connected(a, b);
    }
    assert(strongly_connected(text_order()));
}

proof fn lemma_lex_common_prefix(a: Seq<char>, b: Seq<char>, i: int)
    requires
        0 <= i <= a.len(),
        i <= b.len(),
        forall|k: int| 0 <= k < i ==> a[k] == b[k],
    ensures
        lex_le(a, b) == lex_le(a.skip(i), b.skip(i)),
    decreases i,
{
    if i > 0 {
        lemma_lex_common_prefix(a.drop_first(), b.drop_first(), i - 1);
        assert(a.drop_first().skip(i - 1) =~= a.skip(i));
        assert(b.drop_first().skip(i - 1) =~= b.skip(i));
    } else {
        assert(a.skip(0) =~= a);
        assert(b.skip(0) =~= b);
    }
}

/// Mapping the elements of two sequences that hold the same elements gives
/// two sequences that hold the same elements.
pub proof fn lemma_map_same_elements<A, B>(a: Seq<A>, b: Seq<A>, f: spec_fn(A) -> B)
    requires
        a.to_multiset() == b.to_multiset(),
    ensures
        a.map_values(f).to_multiset() == b.map_values(f).to_multiset(),
    decreases a.len(),
{
    broadcast use vstd::seq_lib::group_to_multiset_ensures;
    broadcast use vstd::multiset::group_multiset_axioms;

    assert(a.len() == a.to_multiset().len() && b.len() == b.to_multiset().len());
    if a.len() == 0 {
        assert(b.len() == 0);
        assert(a.map_values(f) =~= Seq::<B>::empty());
        assert(b.map_values(f) =~= Seq::<B>::empty());
    } else {
        let x = a.last();
        let a1 = a.drop_last();
        assert(a =~= a1.push(x));
        assert(a.to_multiset().count(x) > 0);
        assert(b.contains(x));
        let j = choose|j: int| 0 <= j < b.len() && b[j] == x;
        let b1 = b.remove(j);
        assert(a1.to_multiset() =~= b1.to_multiset());
        lemma_map_same_elements(a1, b1, f);
        let ma = a.map_values(f);
        let mb = b.map_values(f);
        assert(ma =~= a1.map_values(f).push(f(x)));
        assert(mb.remove(j) =~= b1.map_values(f));
        assert(mb[j] == f(x));
        assert(mb.to_multiset().count(f(x)) > 0);
        assert(mb.to_multiset() =~= mb.remove(j).to_multiset().insert(f(x)));
    }
}

/// Whether `a` comes before `b` or equals it.
pub fn text_le(a: &String, b: &String) -> (r: bool)
    ensures
        r == lex_le(a@, b@),
{
    let sa = a.as_str();
    let sb = b.as_str();
    let na = sa.unicode_len();
    let nb = sb.unicode_len();
    let mut i: usize = 0;
    while i < na && i < nb
        invariant
            sa@ == a@,
            sb@ == b@,
            na == a@.len(),
            nb == b@.len(),
            0 <= i <= na,
            i <= nb,
            forall|k: int| 0 <= k < i ==> a@[k] == b@[k],
        decreases na - i,
    {
        let ca = sa.get_char(i);
        let cb = sb.get_char(i);
        if ca != cb {
            proof {
                lemma_lex_common_prefix(a@, b@, i as int);
                assert(a@.skip(i as int)[0] == ca && b@.skip(i as int)[0] == cb);
            }
            return (ca as u32) < (cb as u32);
        }
        i = i + 1;
    }
    proof {
        lemma_lex_common_prefix(a@, b@, i as int);
    }
    na <= nb
}

/// Sorts strings in ascending order.
pub fn sort_texts(v: Vec<String>) -> (r: Vec<String>)
    ensures
        texts(r@) == sorted_texts(texts(v@)),
{
    broadcast use vstd::seq_lib::group_to_multiset_ensures;

    let mut r: Vec<String> = Vec::new();
    let mut rest = v;
    let ghost all = texts(rest@);
    let ghost mut done: nat = 0;
    while rest.len() > 0
        invariant
            sorted_by(texts(r@), text_order()),
            texts(r@).to_multiset() == all.take(done as int).to_multiset(),
            all == texts(v@),
            done + rest@.len() == all.len(),
            texts(rest@) == all.skip(done as int),
        decreases rest@.len(),
    {
        let ghost prev_rest = rest@;
        let x = rest.remove(0);
        assert(x@ == all[done as int]) by {
            assert(texts(prev_rest)[0] == all.skip(done as int)[0]);
        }
        let mut pos: usize = 0;
        while pos < r.len() && text_le(&r[pos], &x)
            invariant
                0 <= pos <= r@.len(),
                forall|i: int| 0 <= i < pos ==> #[trigger] lex_le(r@[i]@, x@),
            decreases r@.len() - pos,
        {
            pos = pos + 1;
        }
        let ghost old_r = texts(r@);
        proof {
            lemma_text_order_total();
            assert forall|i: int| pos <= i < old_r.len() implies !lex_le(#[trigger] old_r[i], x@) by {
                if i > pos {
                    assert(text_order()(old_r[pos as int], old_r[i]));
                    if lex_le(old_r[i], x@) {
                        lemma_lex_transitive(old_r[pos as int], old_r[i], x@);
                    }
                }
            }
        }
        r.insert(pos, x);
        proof {
            lemma_text_order_total();
            assert(texts(r@) =~= old_r.insert(pos as int, x@));
            assert forall|i: int, j: int| 0 <= i < j < texts(r@).len() implies #[trigger] text_order()(texts(r@)[i], texts(r@)[j]) by {
                let t = texts(r@);
                if i < pos && j == pos {
                    assert(lex_le(old_r[i], x@));
                } else if i == pos && j > pos {
                    lemma_lex_connected(x@, old_r[j - 1]);
                } else if i < pos && j > pos {
                    assert(text_order()(old_r[i], old_r[j - 1]));
                } else if i > pos {
                    assert(text_order()(old_r[i - 1], old_r[j - 1]));
                } else {
                    assert(text_order()(old_r[i], old_r[j]));
                }
            }
            vstd::seq_lib::to_multiset_insert(old_r, pos as int, x@);
            assert(all.take(done + 1 as int) =~= all.take(done as int).push(x@));
            vstd::seq_lib::to_multiset_build(all.take(done as int), x@);
            let ghost d = done;
            done = done + 1;
            assert(rest@ =~= prev_rest.subrange(1, prev_rest.len() as int));
            assert forall|k: int| 0 <= k < texts(rest@).len() implies #[trigger] texts(rest@)[k]
                == all.skip(done as int)[k] by {
                assert(texts(prev_rest)[k + 1] == all.skip(d as int)[k + 1]);
            }
            assert(texts(rest@) =~= all.skip(done as int));
        }
    }
    proof {
        assert(all.take(done as int) =~= all);
        lemma_text_order_total();
        all.lemma_sort_by_ensures(text_order());
        lemma_sorted_unique(texts(r@), sorted_texts(all), text_order());
    }
    r
}

/// The strings with `sep` between each two.
pub fn join_texts(parts: &Vec<String>, sep: &str) -> (r: String)
    ensures
        r@ == join(texts(parts@), sep@),
{
    let mut out = String::new();
    let mut i: usize = 0;
    while i < parts.len()
        invariant
            0 <= i <= parts@.len(),
            out@ == join(texts(parts@).take(i as int), sep@),
        decreases parts@.len() - i,
    {
        let ghost prev = out@;
        if i > 0 {
            out.append(sep);
        }
        out.append(parts[i].as_str());
        proof {
            let t = texts(parts@);
            assert(t.take(i + 1).drop_last() =~= t.take(i as int));
            if i == 0 {
                assert(t.take(0) =~= Seq::<Seq<char>>::empty());
                assert(out@ =~= t.take(1)[0]);
            }
        }
        i = i + 1;
    }
    assert(texts(parts@).take(parts@.len() as int) =~= texts(parts@));
    out
}


/// A key and a value as character sequences.
pub type KeyedText = (Seq<char>, Seq<char>);

/// Pairs ordered by key, then by value.
pub open spec fn keyed_le(a: KeyedText, b: KeyedText) -> bool {
    if a.0 != b.0 {
        lex_le(a.0, b.0)
    } else {
        lex_le(a.1, b.1)
    }
}

/// The keyed order as a relation.
pub open spec fn keyed_order() -> spec_fn(KeyedText, KeyedText) -> bool {
    |a: KeyedText, b: KeyedText| keyed_le(a, b)
}

/// The characters of each key and value.
pub open spec fn keyed_texts(v: Seq<(String, String)>) -> Seq<KeyedText> {
    v.map_values(|p: (String, String)| (p.0@, p.1@))
}

/// The pairs in ascending keyed order.
pub open spec fn sorted_keyed(v: Seq<KeyedText>) -> Seq<KeyedText> {
    v.sort_by(keyed_order())
}

proof fn lemma_keyed_transitive(a: KeyedText, b: KeyedText, c: KeyedText)
    requires
        keyed_le(a, b),
        keyed_le(b, c),
    ensures
        keyed_le(a, c),
{
    if a.0 == b.0 && b.0 == c.0 {
        lemma_lex_transitive(a.1, b.1, c.1);
    } else if a.0 == b.0 {
    } else if b.0 == c.0 {
    } else {
        lemma_lex_transitive(a.0, b.0, c.0);
        if a.0 == c.0 {
            lemma_lex_antisymmetric(a.0, b.0);
        }
    }
}

proof fn lemma_keyed_connected(a: KeyedText, b: KeyedText)
    ensures
        keyed_le(a, b) || keyed_le(b, a),
{
    if a.0 == b.0 {
        lemma_lex_connected(a.1, b.1);
    } else {
        lemma_lex_connected(a.0, b.0);
    }
}

/// The keyed order is a total order.
pub proof fn lemma_keyed_order_total()
    ensures
        total_ordering(keyed_order()),
{
    assert forall|a: KeyedText| #[trigger] keyed_order()(a, a) by {
        lemma_lex_reflexive(a.1);
    }
    assert(reflexive(keyed_order()));
    assert forall|a: KeyedText, b: KeyedText| #[trigger] keyed_order()(a, b) && #[trigger] keyed_order()(b, a) implies a == b by {
        if a.0 == b.0 {
            lemma_lex_antisymmetric(a.1, b.1);
        } else {
            lemma_lex_antisymmetric(a.0, b.0);
        }
    }
    assert(antisymmetric(keyed_order()));
    assert forall|a: KeyedText, b: KeyedText, c: KeyedText|
        #[trigger] keyed_order()(a, b) && #[trigger] keyed_order()(b, c) implies keyed_order()(a, c) by {
        lemma_keyed_transitive(a, b, c);
    }
    assert(transitive(keyed_order()));
    assert forall|a: KeyedText, b: KeyedText| #[trigger] keyed_order()(a, b) || keyed_order()(b, a) by {
        lemma_keyed_connected(a, b);
    }
    assert(strongly_connected(keyed_order()));
}

/// Whether pair `a` comes before pair `b` or equals it.
pub fn keyed_text_le(a: &(String, String), b: &(String, String)) -> (r: bool)
    ensures
        r == keyed_le((a.0@, a.1@), (b.0@, b.1@)),
{
    if a.0 == b.0 {
        text_le(&a.1, &b.1)
    } else {
        text_le(&a.0, &b.0)
    }
}

/// Sorts pairs of strings by key, then by value.
pub fn sort_keyed(v: Vec<(String, String)>) -> (r: Vec<(String, String)>)
    ensures
        keyed_texts(r@) == sorted_keyed(keyed_texts(v@)),
{
    broadcast use vstd::seq_lib::group_to_multiset_ensures;

    let mut r: Vec<(String, String)> = Vec::new();
    let mut rest = v;
    let ghost all = keyed_texts(rest@);
    let ghost mut done: nat = 0;
    while rest.len() > 0
        invariant
            sorted_by(keyed_texts(r@), keyed_order()),
            keyed_texts(r@).to_multiset() == all.take(done as int).to_multiset(),
            all == keyed_texts(v@),
            done + rest@.len() == all.len(),
            keyed_texts(rest@) == all.skip(done as int),
        decreases rest@.len(),
    {
        let ghost prev_rest = rest@;
        let x = rest.remove(0);
        let ghost xv: KeyedText = (x.0@, x.1@);
        assert(xv == all[done as int]) by {
            assert(keyed_texts(prev_rest)[0] == all.skip(done as int)[0]);
        }
        let mut pos: usize = 0;
        while pos < r.len() && keyed_text_le(&r[pos], &x)
            invariant
                0 <= pos <= r@.len(),
                xv == (x.0@, x.1@),
                forall|i: int| 0 <= i < pos ==> #[trigger] keyed_le(keyed_texts(r@)[i], xv),
            decreases r@.len() - pos,
        {
            pos = pos + 1;
        }
        let ghost old_r = keyed_texts(r@);
        proof {
            lemma_keyed_order_total();
            assert forall|i: int| pos <= i < old_r.len() implies !keyed_le(#[trigger] old_r[i], xv) by {
                if i > pos {
                    assert(keyed_order()(old_r[pos as int], old_r[i]));
                    if keyed_le(old_r[i], xv) {
                        lemma_keyed_transitive(old_r[pos as int], old_r[i], xv);
                    }
                }
            }
        }
        r.insert(pos, x);
        proof {
            lemma_keyed_order_total();
            assert(keyed_texts(r@) =~= old_r.insert(pos as int, xv));
            assert forall|i: int, j: int| 0 <= i < j < keyed_texts(r@).len() implies #[trigger] keyed_order()(
                keyed_texts(r@)[i],
                keyed_texts(r@)[j],
            ) by {
                if i < pos && j == pos {
                    assert(keyed_le(old_r[i], xv));
                } else if i == pos && j > pos {
                    lemma_keyed_connected(xv, old_r[j - 1]);
                } else if i < pos && j > pos {
                    assert(keyed_order()(old_r[i], old_r[j - 1]));
                } else if i > pos {
                    assert(keyed_order()(old_r[i - 1], old_r[j - 1]));
                } else {
                    assert(keyed_order()(old_r[i], old_r[j]));
                }
            }
            vstd::seq_lib::to_multiset_insert(old_r, pos as int, xv);
            assert(all.take(done + 1 as int) =~= all.take(done as int).push(xv));
            vstd::seq_lib::to_multiset_build(all.take(done as int), xv);
            let ghost d = done;
            done = done + 1;
            assert(rest@ =~= prev_rest.subrange(1, prev_rest.len() as int));
            assert forall|k: int| 0 <= k < keyed_texts(rest@).len() implies #[trigger] keyed_texts(rest@)[k]
                == all.skip(done as int)[k] by {
                assert(keyed_texts(prev_rest)[k + 1] == all.skip(d as int)[k + 1]);
            }
            assert(keyed_texts(rest@) =~= all.skip(done as int));
        }
    }
    proof {
        assert(all.take(done as int) =~= all);
        lemma_keyed_order_total();
        all.lemma_sort_by_ensures(keyed_order());
        lemma_sorted_unique(keyed_texts(r@), sorted_keyed(all), keyed_order());
    }
    r
}

} // verus!
