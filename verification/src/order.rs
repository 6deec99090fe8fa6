//! Ordering contacts by XOR distance to a target, and sorting under that
//! order. Ties on distance are broken by the id's own value, which makes
//! the order total and the sorted output deterministic.

use vstd::prelude::*;

use crate::id::{
    bytes_lt, lemma_bytes_lt_trans, lemma_bytes_lt_trichotomy, id_less, xor_bytes, NodeId,
};
use crate::node::Node;

verus! {

/// The distance of a contact's id to `t`.
pub open spec fn node_dist(t: Seq<u8>, n: Node) -> Seq<u8> {
    xor_bytes(n.id_spec(), t)
}

/// `a` sorts no later than `b` around target `t`: strictly closer, or at
/// equal distance with an id no larger.
pub open spec fn node_leq(t: Seq<u8>, a: Node, b: Node) -> bool {
    let da = node_dist(t, a);
    let db = node_dist(t, b);
    ||| bytes_lt(da, db)
    ||| (da == db && (bytes_lt(a.id_spec(), b.id_spec()) || a.id_spec() == b.id_spec()))
}

/// A sequence of contacts in ascending distance order around `t`.
pub open spec fn nodes_sorted(t: Seq<u8>, s: Seq<Node>) -> bool {
    forall|i: int, j: int| 0 <= i < j < s.len() ==> node_leq(t, #[trigger] s[i], #[trigger] s[j])
}

/// The order is total: of any two contacts one sorts no later.
pub proof fn lemma_node_leq_total(t: Seq<u8>, a: Node, b: Node)
    ensures
        node_leq(t, a, b) || node_leq(t, b, a),
{
    broadcast use vstd::array::group_array_axioms;

    let da = node_dist(t, a);
    let db = node_dist(t, b);
    if !bytes_lt(da, db) && !bytes_lt(db, da) {
        assert(da.len() == db.len());
        lemma_bytes_lt_trichotomy(da, db);
        if !bytes_lt(a.id_spec(), b.id_spec()) && !bytes_lt(b.id_spec(), a.id_spec()) {
            assert(a.id_spec().len() == b.id_spec().len());
            lemma_bytes_lt_trichotomy(a.id_spec(), b.id_spec());
        }
    }
}

/// The order is transitive.
pub proof fn lemma_node_leq_trans(t: Seq<u8>, a: Node, b: Node, c: Node)
    requires
        node_leq(t, a, b),
        node_leq(t, b, c),
    ensures
        node_leq(t, a, c),
{
    broadcast use vstd::array::group_array_axioms;

    let da = node_dist(t, a);
    let db = node_dist(t, b);
    let dc = node_dist(t, c);
    if bytes_lt(da, db) && bytes_lt(db, dc) {
        assert(da.len() == db.len());
        assert(db.len() == dc.len());
        lemma_bytes_lt_trans(da, db, dc);
    }
    if da == db && db == dc {
        if bytes_lt(a.id_spec(), b.id_spec()) && bytes_lt(b.id_spec(), c.id_spec()) {
            assert(a.id_spec().len() == b.id_spec().len());
            assert(b.id_spec().len() == c.id_spec().len());
            lemma_bytes_lt_trans(a.id_spec(), b.id_spec(), c.id_spec());
        }
    }
}

/// Decides `node_leq` at run time.
pub fn node_leq_exec(t: &NodeId, a: &Node, b: &Node) -> (r: bool)
    ensures
        r == node_leq(t@, *a, *b),
{
    let da = a.id.distance(t);
    let db = b.id.distance(t);
    if id_less(&da, &db) {
        return true;
    }
    if id_less(&db, &da) {
        proof {
            if node_leq(t@, *a, *b) {
                crate::id::lemma_bytes_lt_asymmetric(db@, da@);
            }
        }
        return false;
    }
    proof {
        broadcast use vstd::array::group_array_axioms;

        assert(da@.len() == db@.len());
        lemma_bytes_lt_trichotomy(da@, db@);
    }
    if id_less(&a.id, &b.id) {
        return true;
    }
    a.id.equals(&b.id)
}

/// Sorts contacts by ascending distance to `target` (ids breaking ties):
/// the result is a sorted permutation of the input.
pub fn sort_by_distance(nodes: Vec<Node>, target: &NodeId) -> (r: Vec<Node>)
    ensures
        r@.to_multiset() == nodes@.to_multiset(),
        r@.len() == nodes@.len(),
        nodes_sorted(target@, r@),
{
    proof {
        broadcast use vstd::seq_lib::group_to_multiset_ensures;
        broadcast use vstd::multiset::group_multiset_axioms;

    }
    let mut work = nodes;
    let mut res: Vec<Node> = Vec::new();
    proof {
        assert(res@.to_multiset().add(work@.to_multiset()) =~= nodes@.to_multiset());
    }
    while work.len() > 0
        invariant
            res@.to_multiset().add(work@.to_multiset()) == nodes@.to_multiset(),
            res@.len() + work@.len() == nodes@.len(),
            nodes_sorted(target@, res@),
            forall|x: int, y: int|
                0 <= x < res@.len() && 0 <= y < work@.len() ==> node_leq(
                    target@,
                    #[trigger] res@[x],
                    #[trigger] work@[y],
                ),
        decreases work@.len(),
    {
        proof {
            broadcast use vstd::seq_lib::group_to_multiset_ensures;
            broadcast use vstd::multiset::group_multiset_axioms;

        }
        let mut m: usize = 0;
        let mut k: usize = 1;
        while k < work.len()
            invariant
                m < k <= work@.len(),
                forall|j: int| 0 <= j < k ==> node_leq(target@, work@[m as int], #[trigger] work@[j]),
            decreases work@.len() - k,
        {
            let wk = work[k];
            let wm = work[m];
            if node_leq_exec(target, &wk, &wm) {
                proof {
                    assert forall|j: int| 0 <= j < k + 1 implies node_leq(
                        target@,
                        wk,
                        #[trigger] work@[j],
                    ) by {
                        if j < k {
                            lemma_node_leq_trans(target@, wk, wm, work@[j]);
                        }
                    }
                }
                m = k;
            } else {
                proof {
                    lemma_node_leq_total(target@, wk, wm);
                }
            }
            k = k + 1;
        }
        let ghost work0 = work@;
        let ghost res0 = res@;
        let x = work.remove(m);
        res.push(x);
        proof {
            broadcast use vstd::seq_lib::group_to_multiset_ensures;
            broadcast use vstd::multiset::group_multiset_axioms;

            assert(x == work0[m as int]);
            assert(work@ == work0.remove(m as int));
            assert(work@.to_multiset() == work0.to_multiset().remove(x));
            assert(res@ == res0.push(x));
            assert(res@.to_multiset() == res0.to_multiset().insert(x));
            assert(work0.contains(x));
            assert(work0.to_multiset().count(x) > 0);
            assert(res@.to_multiset().add(work@.to_multiset()) =~= res0.to_multiset().add(
                work0.to_multiset(),
            ));
            // the pushed minimum sorts after everything already placed
            assert forall|i: int, j: int| 0 <= i < j < res@.len() implies node_leq(
                target@,
                #[trigger] res@[i],
                #[trigger] res@[j],
            ) by {
                if j == res@.len() - 1 {
                    assert(res@[i] == res0[i]);
                    assert(res@[j] == work0[m as int]);
                }
            }
            // and everything left in the work list sorts after it
            assert forall|i: int, y: int|
                0 <= i < res@.len() && 0 <= y < work@.len() implies node_leq(
                target@,
                #[trigger] res@[i],
                #[trigger] work@[y],
            ) by {
                let orig: int = if y < m as int {
                    y
                } else {
                    y + 1
                };
                assert(work@[y] == work0[orig]);
                if i < res@.len() - 1 {
                    assert(res@[i] == res0[i]);
                } else {
                    assert(res@[i] == work0[m as int]);
                }
            }
        }
    }
    proof {
        broadcast use vstd::seq_lib::group_to_multiset_ensures;
        broadcast use vstd::multiset::group_multiset_axioms;

        assert(work@.to_multiset().len() == 0);
        assert(res@.to_multiset().add(work@.to_multiset()) =~= res@.to_multiset());
    }
    res
}

} // verus!
