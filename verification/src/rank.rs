//! Deterministic ranking of search hits. Within one partition, hits rank
//! by descending score with ties broken by partition key, row id and
//! subrow id; the registry's merge re-ranks across partitions with ties
//! broken by sheet name (see the registry module), using the character
//! order defined here. Both orders are total and antisymmetric over whole
//! hits, so a ranked sequence is determined by the multiset of hits
//! alone.

use vstd::prelude::*;
use vstd::relations::sorted_by;
use vstd::std_specs::iter::IteratorSpec;
use vstd::relations::total_ordering;
use vstd::seq_lib::group_to_multiset_ensures;
use vstd::seq_lib::lemma_multiset_commutative;
use vstd::seq_lib::lemma_sorted_unique;

use crate::index::IndexResult;

verus! {

/// Ranking order on hits: higher scores first; equal scores ordered by
/// ascending partition key, row id, subrow id.
pub open spec fn result_le(a: IndexResult, b: IndexResult) -> bool {
    if a.score != b.score {
        a.score > b.score
    } else if a.sheet_key != b.sheet_key {
        a.sheet_key < b.sheet_key
    } else if a.row_id != b.row_id {
        a.row_id < b.row_id
    } else {
        a.subrow_id <= b.subrow_id
    }
}

/// The ranking order as a relation value.
pub open spec fn result_order() -> spec_fn(IndexResult, IndexResult) -> bool {
    |a: IndexResult, b: IndexResult| result_le(a, b)
}

/// The ranking order is a total ordering.
pub proof fn lemma_result_order_total()
    ensures
        total_ordering(result_order()),
{
    let r = result_order();
    assert forall|a: IndexResult, b: IndexResult| #[trigger] r(a, b) && #[trigger] r(b, a) implies a
        == b by {
        assert(a.score == b.score && a.sheet_key == b.sheet_key && a.row_id == b.row_id
            && a.subrow_id == b.subrow_id);
    }
    assert forall|a: IndexResult, b: IndexResult, c: IndexResult|
        #[trigger] r(a, b) && #[trigger] r(b, c) implies r(a, c) by {}
    assert forall|a: IndexResult, b: IndexResult| !(#[trigger] r(a, b)) implies r(b, a) by {}
    assert forall|a: IndexResult| #[trigger] r(a, a) by {}
}

/// Executable comparison deciding `result_le`.
pub fn result_le_exec(a: &IndexResult, b: &IndexResult) -> (r: bool)
    ensures
        r == result_le(*a, *b),
{
    if a.score != b.score {
        a.score > b.score
    } else if a.sheet_key != b.sheet_key {
        a.sheet_key < b.sheet_key
    } else if a.row_id != b.row_id {
        a.row_id < b.row_id
    } else {
        a.subrow_id <= b.subrow_id
    }
}

/// Inserting an element anywhere adds it to the sequence's multiset.
pub proof fn lemma_insert_multiset(s: Seq<IndexResult>, j: int, x: IndexResult)
    requires
        0 <= j <= s.len(),
    ensures
        s.insert(j, x).to_multiset() == s.to_multiset().insert(x),
{
    broadcast use group_to_multiset_ensures;

    assert(s.insert(j, x) =~= s.take(j).push(x) + s.skip(j));
    lemma_multiset_commutative(s.take(j).push(x), s.skip(j));
    assert(s =~= s.take(j) + s.skip(j));
    lemma_multiset_commutative(s.take(j), s.skip(j));
    assert(s.take(j).push(x).to_multiset() =~= s.take(j).to_multiset().insert(x));
    assert(s.insert(j, x).to_multiset() =~= s.to_multiset().insert(x));
}

/// Sorts hits into the ranking order. The result is exactly the
/// specification-level sort of the input.
pub fn sort_results(input: Vec<IndexResult>) -> (r: Vec<IndexResult>)
    ensures
        r@ == input@.sort_by(result_order()),
        sorted_by(r@, result_order()),
        r@.to_multiset() == input@.to_multiset(),
        r@.len() == input@.len(),
{
    broadcast use group_to_multiset_ensures;

    proof {
        lemma_result_order_total();
    }
    let mut out: Vec<IndexResult> = Vec::new();
    let mut i: usize = 0;
    proof {
        assert(input@.take(0int) =~= Seq::<IndexResult>::empty());
        assert(out@.to_multiset() =~= input@.take(0int).to_multiset());
    }
    while i < input.len()
        invariant
            0 <= i <= input@.len(),
            sorted_by(out@, result_order()),
            out@.to_multiset() == input@.take(i as int).to_multiset(),
            out@.len() == i,
        decreases input@.len() - i,
    {
        let x = input[i];
        let mut j: usize = 0;
        while j < out.len() && result_le_exec(&out[j], &x)
            invariant
                0 <= j <= out@.len(),
                forall|k: int| 0 <= k < j ==> result_le(#[trigger] out@[k], x),
            decreases out@.len() - j,
        {
            j += 1;
        }
        let ghost pre = out@;
        out.insert(j, x);
        proof {
            assert(out@ == pre.insert(j as int, x));
            lemma_insert_multiset(pre, j as int, x);
            assert(input@.take(i + 1 as int) =~= input@.take(i as int).push(x));
            vstd::seq_lib::to_multiset_build(input@.take(i as int), x);
            assert(input@.take(i as int).push(x).to_multiset() =~= input@.take(
                i as int,
            ).to_multiset().insert(x));
            assert(input@.take(i + 1 as int).to_multiset() =~= input@.take(
                i as int,
            ).to_multiset().insert(x));
            let r = result_order();
            assert forall|a: int, b: int| 0 <= a < b < out@.len() implies r(
                out@[a],
                out@[b],
            ) by {
                if b < j {
                    assert(out@[a] == pre[a] && out@[b] == pre[b]);
                } else if a < j && b == j {
                    assert(out@[a] == pre[a] && out@[b] == x);
                } else if a < j && b > j {
                    assert(out@[a] == pre[a] && out@[b] == pre[b - 1]);
                } else if a == j {
                    assert(out@[a] == x && out@[b] == pre[b - 1]);
                    if j < pre.len() {
                        assert(!result_le(pre[j as int], x));
                        assert(r(x, pre[j as int]));
                        assert(r(pre[j as int], pre[b - 1]) || j as int == b - 1);
                    }
                } else {
                    assert(out@[a] == pre[a - 1] && out@[b] == pre[b - 1]);
                }
            }
        }
        i += 1;
    }
    proof {
        assert(input@.take(input@.len() as int) =~= input@);
        input@.lemma_sort_by_ensures(result_order());
        lemma_sorted_unique(out@, input@.sort_by(result_order()), result_order());
        assert(out@.to_multiset().len() == out@.len());
        assert(input@.sort_by(result_order()).to_multiset().len() == input@.sort_by(
            result_order(),
        ).len());
    }
    out
}

/// Lexicographic order on character sequences by scalar value; sheet
/// names rank by it when scores tie.
pub open spec fn chars_le(a: Seq<char>, b: Seq<char>) -> bool
    decreases a.len(),
{
    if a.len() == 0 {
        true
    } else if b.len() == 0 {
        false
    } else if a[0] != b[0] {
        (a[0] as u32) < (b[0] as u32)
    } else {
        chars_le(a.drop_first(), b.drop_first())
    }
}

pub proof fn lemma_chars_le_refl(a: Seq<char>)
    ensures
        chars_le(a, a),
    decreases a.len(),
{
    if a.len() > 0 {
        lemma_chars_le_refl(a.drop_first());
    }
}

pub proof fn lemma_chars_le_total(a: Seq<char>, b: Seq<char>)
    ensures
        chars_le(a, b) || chars_le(b, a),
    decreases a.len(),
{
    broadcast use vstd::utf8::char_u32_cast;

    if a.len() > 0 && b.len() > 0 {
        if a[0] == b[0] {
            lemma_chars_le_total(a.drop_first(), b.drop_first());
        } else {
            vstd::utf8::char_u32_cast(a[0], a[0] as u32);
            vstd::utf8::char_u32_cast(b[0], b[0] as u32);
            assert((a[0] as u32) != (b[0] as u32));
        }
    }
}

pub proof fn lemma_chars_le_antisym(a: Seq<char>, b: Seq<char>)
    requires
        chars_le(a, b),
        chars_le(b, a),
    ensures
        a == b,
    decreases a.len(),
{
    if a.len() == 0 {
        assert(b.len() == 0);
        assert(a =~= b);
    } else {
        assert(b.len() > 0);
        assert(a[0] == b[0]);
        assert(chars_le(a.drop_first(), b.drop_first()));
        assert(chars_le(b.drop_first(), a.drop_first()));
        lemma_chars_le_antisym(a.drop_first(), b.drop_first());
        assert(a.drop_first() == b.drop_first());
        assert(a.drop_first().len() == a.len() - 1);
        assert(b.drop_first().len() == b.len() - 1);
        assert(a.len() == b.len());
        assert(forall|i: int|
            1 <= i < a.len() ==> #[trigger] a[i] == a.drop_first()[i - 1] && b[i]
                == b.drop_first()[i - 1]);
        assert(a =~= b);
    }
}

pub proof fn lemma_chars_le_trans(a: Seq<char>, b: Seq<char>, c: Seq<char>)
    requires
        chars_le(a, b),
        chars_le(b, c),
    ensures
        chars_le(a, c),
    decreases a.len(),
{
    if a.len() > 0 && b.len() > 0 && c.len() > 0 {
        if a[0] == b[0] && b[0] == c[0] {
            lemma_chars_le_trans(a.drop_first(), b.drop_first(), c.drop_first());
        }
    }
}

/// Decides `chars_le` on two strings, walking their characters.
pub fn str_le(a: &str, b: &str) -> (r: bool)
    ensures
        r == chars_le(a@, b@),
{
    broadcast use vstd::string::group_string_axioms;
    broadcast use vstd::string::next_postcondition;

    let mut x = a.chars();
    let mut y = b.chars();
    proof {
        assert(x.remaining() == a@);
        assert(y.remaining() == b@);
    }
    loop
        invariant
            x.obeys_prophetic_iter_laws(),
            y.obeys_prophetic_iter_laws(),
            x.decrease() is Some,
            chars_le(a@, b@) == chars_le(x.remaining(), y.remaining()),
        decreases x.decrease()->0,
    {
        let ghost xr = x.remaining();
        let ghost yr = y.remaining();
        let ca = x.next();
        let cb = y.next();
        match (ca, cb) {
            (None, _) => {
                proof {
                    assert(xr.len() == 0);
                    assert(chars_le(xr, yr));
                }
                return true;
            },
            (Some(_), None) => {
                proof {
                    assert(xr.len() > 0 && yr.len() == 0);
                    assert(!chars_le(xr, yr));
                }
                return false;
            },
            (Some(first_a), Some(first_b)) => {
                proof {
                    assert(first_a == xr[0] && first_b == yr[0]);
                }
                if first_a != first_b {
                    proof {
                        assert(chars_le(xr, yr) == ((xr[0] as u32) < (yr[0] as u32)));
                    }
                    return (first_a as u32) < (first_b as u32);
                }
                proof {
                    assert(x.remaining() == xr.drop_first());
                    assert(y.remaining() == yr.drop_first());
                    assert(chars_le(xr, yr) == chars_le(x.remaining(), y.remaining()));
                }
            },
        }
    }
}

} // verus!
