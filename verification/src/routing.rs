//! The Kademlia routing table: buckets of up to K contacts partitioned by
//! the length of the common leading-bit prefix their distance to the local
//! id shares, plus the rolling token secrets of the anti-spoofing scheme.

use vstd::prelude::*;

use crate::addrs::PeerAddr;
use crate::errors::ErrorKind;
use crate::id::{seq_lz, xor_bytes, NodeId};
use crate::node::{Node, NodeState};
use crate::order::{nodes_sorted, sort_by_distance};
use crate::outside::{random_bytes20, sha1_bytes, sha1_of};

verus! {

/// Bucket capacity: each bucket holds at most this many contacts.
pub const K: usize = 8;

/// Width of the identifier space in bits, and so the most buckets a table
/// can ever split into.
pub const ID_BITS: usize = 160;

/// One bucket: contacts kept in insertion order, oldest first, so the
/// eviction policy can prefer the oldest bad node.
pub struct Bucket {
    /// The contacts, insertion order preserved.
    pub nodes: Vec<Node>,
}

/// The leading zero bits of a node's distance to the local id: how long a
/// leading-bit prefix the two identifiers share.
pub open spec fn node_lz(local: Seq<u8>, n: Node) -> int {
    seq_lz(xor_bytes(local, n.id_spec()))
}

/// All nodes of the first `i` buckets, flattened in bucket order.
pub open spec fn nodes_upto(bs: Seq<Bucket>, i: int) -> Seq<Node>
    decreases i,
{
    if i <= 0 {
        Seq::empty()
    } else {
        nodes_upto(bs, i - 1) + bs[i - 1].nodes@
    }
}

/// A token derived from one secret and one address.
pub open spec fn token_of(secret: Seq<u8>, addr: PeerAddr) -> Seq<u8> {
    sha1_of(secret + addr.compact())
}

/// Whether a pair of secrets accepts `token` for `addr`: it must be the
/// token of either secret.
pub open spec fn secrets_accept(
    cur: Seq<u8>,
    prev: Seq<u8>,
    token: Seq<u8>,
    addr: PeerAddr,
) -> bool {
    token == token_of(cur, addr) || token == token_of(prev, addr)
}

/// A token generated under the current secret verifies at once, and still
/// verifies after one rotation, which keeps that secret as the previous
/// one. Only the second rotation retires it.
pub proof fn lemma_token_valid_until_second_rotation(
    cur: Seq<u8>,
    prev: Seq<u8>,
    next: Seq<u8>,
    addr: PeerAddr,
)
    ensures
        secrets_accept(cur, prev, token_of(cur, addr), addr),
        secrets_accept(next, cur, token_of(cur, addr), addr),
{
}

/// The routing table of one node.
pub struct RoutingTable {
    /// The node's own identifier; fixed for the process lifetime.
    pub local_id: NodeId,
    /// The buckets; bucket `i` of all but the last holds exactly the
    /// contacts whose distance to `local_id` has `i` leading zero bits,
    /// and the last holds every longer prefix, `local_id`'s own range.
    pub buckets: Vec<Bucket>,
    /// The secret tokens are currently derived from.
    pub token_secret: Vec<u8>,
    /// The secret of the previous rotation; tokens issued under it are
    /// still accepted.
    pub token_secret_previous: Vec<u8>,
}

impl RoutingTable {
    /// How many buckets the table currently has.
    pub open spec fn num_buckets(self) -> int {
        self.buckets@.len() as int
    }

    /// Bucket `i` is well-formed: at most K contacts, each placed by its
    /// prefix length, no id twice.
    pub open spec fn bucket_wf(self, i: int) -> bool {
        let ns = self.buckets@[i].nodes@;
        &&& ns.len() <= K
        &&& (forall|j: int|
            0 <= j < ns.len() ==> (if i < self.num_buckets() - 1 {
                node_lz(self.local_id@, #[trigger] ns[j]) == i
            } else {
                node_lz(self.local_id@, ns[j]) >= i
            }))
        &&& (forall|j1: int, j2: int|
            0 <= j1 < j2 < ns.len() ==> (#[trigger] ns[j1]).id_spec() != (
            #[trigger] ns[j2]).id_spec())
    }

    /// The table invariant.
    pub open spec fn wf(self) -> bool {
        &&& 1 <= self.num_buckets() <= ID_BITS
        &&& (forall|i: int| 0 <= i < self.num_buckets() ==> self.bucket_wf(i))
        &&& self.token_secret@.len() == 20
        &&& self.token_secret_previous@.len() == 20
    }

    /// Every contact of the table, flattened in bucket order.
    pub open spec fn all_nodes(self) -> Seq<Node> {
        nodes_upto(self.buckets@, self.num_buckets())
    }

    /// How many contacts the table holds in all.
    pub open spec fn total(self) -> int {
        self.all_nodes().len() as int
    }

    /// Whether some contact of the table has this identifier.
    pub open spec fn contains_id(self, id: Seq<u8>) -> bool {
        seq_has_id(self.all_nodes(), id)
    }

    /// A fresh table: one empty bucket covering the whole space, and two
    /// freshly drawn token secrets.
    pub fn new(local_id: NodeId) -> (r: RoutingTable)
        ensures
            r.wf(),
            r.local_id == local_id,
            r.total() == 0,
            r.all_nodes() == Seq::<Node>::empty(),
    {
        let mut buckets: Vec<Bucket> = Vec::new();
        buckets.push(Bucket { nodes: Vec::new() });
        let r = RoutingTable {
            local_id,
            buckets,
            token_secret: random_bytes20(),
            token_secret_previous: random_bytes20(),
        };
        proof {
            assert(nodes_upto(r.buckets@, 0) =~= Seq::<Node>::empty());
            assert(r.all_nodes() =~= nodes_upto(r.buckets@, 0) + r.buckets@[0].nodes@);
            assert(r.all_nodes() =~= Seq::<Node>::empty());
        }
        r
    }

    /// Counts the contacts bucket by bucket: the total across all buckets
    /// is exactly the table's node count.
    pub fn len(&self) -> (r: usize)
        requires
            self.wf(),
        ensures
            r == self.total(),
    {
        proof {
            lemma_all_buckets_capped(*self);
            lemma_nodes_upto_len(self.buckets@, self.num_buckets(), K as int);
        }
        let mut sum: usize = 0;
        let mut i: usize = 0;
        while i < self.buckets.len()
            invariant
                self.wf(),
                i <= self.buckets@.len(),
                sum == nodes_upto(self.buckets@, i as int).len(),
                sum <= K * i,
            decreases self.buckets@.len() - i,
        {
            proof {
                assert(self.bucket_wf(i as int));
                lemma_all_buckets_capped(*self);
                lemma_nodes_upto_len(self.buckets@, i as int, K as int);
            }
            sum = sum + self.buckets[i].nodes.len();
            i = i + 1;
        }
        sum
    }

    /// Issues the token that binds `addr` to the current secret:
    /// the SHA-1 digest of the secret followed by the compact address.
    pub fn generate_token(&self, addr: PeerAddr) -> (r: Vec<u8>)
        requires
            self.wf(),
        ensures
            r@ == token_of(self.token_secret@, addr),
            r@.len() == 20,
    {
        let mut buf = copy_bytes(&self.token_secret);
        addr.push_compact(&mut buf);
        sha1_bytes(&buf)
    }

    /// Accepts a token for `addr` exactly when it was issued for `addr`
    /// under the current or the previous secret.
    pub fn verify_token(&self, token: &Vec<u8>, addr: PeerAddr) -> (r: bool)
        requires
            self.wf(),
        ensures
            r == secrets_accept(self.token_secret@, self.token_secret_previous@, token@, addr),
    {
        let mut buf = copy_bytes(&self.token_secret);
        addr.push_compact(&mut buf);
        let current = sha1_bytes(&buf);
        if bytes_eq(token, &current) {
            return true;
        }
        let mut buf_prev = copy_bytes(&self.token_secret_previous);
        addr.push_compact(&mut buf_prev);
        let previous = sha1_bytes(&buf_prev);
        bytes_eq(token, &previous)
    }

    /// Rolls the token secrets: the current secret becomes the previous
    /// one, a freshly drawn secret takes its place. Tokens issued under
    /// the retiring current secret therefore stay valid one more period.
    pub fn rotate_token_secret(&mut self)
        requires
            old(self).wf(),
        ensures
            final(self).wf(),
            final(self).token_secret_previous@ == old(self).token_secret@,
            final(self).token_secret@.len() == 20,
            final(self).local_id == old(self).local_id,
            final(self).buckets@ == old(self).buckets@,
    {
        let fresh = random_bytes20();
        let current = copy_bytes(&self.token_secret);
        self.token_secret_previous = current;
        self.token_secret = fresh;
        proof {
            assert forall|i: int| 0 <= i < self.num_buckets() implies self.bucket_wf(i) by {
                assert(old(self).bucket_wf(i));
            }
        }
    }
}

/// Every bucket of a well-formed table holds at most K nodes.
proof fn lemma_all_buckets_capped(t: RoutingTable)
    requires
        t.wf(),
    ensures
        forall|j: int| 0 <= j < t.num_buckets() ==> (#[trigger] t.buckets@[j].nodes@).len() <= K,
{
    assert forall|j: int|
        0 <= j < t.num_buckets() implies (#[trigger] t.buckets@[j].nodes@).len() <= K by {
        assert(t.bucket_wf(j));
    }
}

/// The flattened table is at least as large as any one of its buckets.
proof fn lemma_nodes_upto_lower(bs: Seq<Bucket>, i: int, bi: int)
    requires
        0 <= bi < i,
    ensures
        nodes_upto(bs, i).len() >= bs[bi].nodes@.len(),
    decreases i,
{
    if bi < i - 1 {
        lemma_nodes_upto_lower(bs, i - 1, bi);
    }
}

/// The flattened prefix grows by at most K nodes per bucket.
proof fn lemma_nodes_upto_len(bs: Seq<Bucket>, i: int, cap: int)
    requires
        forall|j: int| 0 <= j < i ==> (#[trigger] bs[j].nodes@).len() <= cap,
        0 <= cap,
        0 <= i,
    ensures
        0 <= nodes_upto(bs, i).len() <= cap * i,
    decreases i,
{
    if i > 0 {
        lemma_nodes_upto_len(bs, i - 1, cap);
        assert(cap * i == cap * (i - 1) + cap) by (nonlinear_arith);
    }
}

/// Whether `x` is one of the first `t` elements of `s`.
pub open spec fn from_prefix(s: Seq<Node>, t: int, x: Node) -> bool {
    exists|o: int| 0 <= o < t && x == #[trigger] s[o]
}

/// Whether some node of the sequence carries this identifier.
pub open spec fn seq_has_id(s: Seq<Node>, id: Seq<u8>) -> bool {
    exists|k: int| 0 <= k < s.len() && (#[trigger] s[k]).id_spec() == id
}

/// A node of some bucket appears in the flattened table.
proof fn lemma_nodes_upto_contains(bs: Seq<Bucket>, i: int, bi: int, j: int)
    requires
        0 <= bi < i,
        0 <= j < bs[bi].nodes@.len(),
    ensures
        nodes_upto(bs, i).contains(bs[bi].nodes@[j]),
    decreases i,
{
    if bi == i - 1 {
        assert(nodes_upto(bs, i)[nodes_upto(bs, i - 1).len() + j] == bs[bi].nodes@[j]);
    } else {
        lemma_nodes_upto_contains(bs, i - 1, bi, j);
        let k = choose|k: int|
            0 <= k < nodes_upto(bs, i - 1).len() && #[trigger] nodes_upto(bs, i - 1)[k]
                == bs[bi].nodes@[j];
        assert(nodes_upto(bs, i)[k] == bs[bi].nodes@[j]);
    }
}

/// Each element of the flattened table comes from some bucket.
proof fn lemma_nodes_upto_membership(bs: Seq<Bucket>, i: int, k: int)
    requires
        0 <= i,
        0 <= k < nodes_upto(bs, i).len(),
    ensures
        exists|bi: int, j: int|
            0 <= bi < i && 0 <= j < bs[bi].nodes@.len() && nodes_upto(bs, i)[k] == bs[bi].nodes@[j],
    decreases i,
{
    let prefix = nodes_upto(bs, i - 1);
    if k < prefix.len() {
        lemma_nodes_upto_membership(bs, i - 1, k);
        let (bi, j) = choose|bi: int, j: int|
            0 <= bi < i - 1 && 0 <= j < bs[bi].nodes@.len() && prefix[k] == bs[bi].nodes@[j];
        assert(nodes_upto(bs, i)[k] == prefix[k]);
        assert(nodes_upto(bs, i)[k] == bs[bi].nodes@[j]);
    } else {
        let j = k - prefix.len();
        assert(nodes_upto(bs, i)[k] == bs[i - 1].nodes@[j]);
    }
}

/// The flattened prefix only reads the buckets before `i`.
proof fn lemma_nodes_upto_prefix(bs1: Seq<Bucket>, bs2: Seq<Bucket>, i: int)
    requires
        forall|j: int| 0 <= j < i ==> bs1[j] == bs2[j],
    ensures
        nodes_upto(bs1, i) == nodes_upto(bs2, i),
    decreases i,
{
    if i > 0 {
        lemma_nodes_upto_prefix(bs1, bs2, i - 1);
    }
}

/// Replacing one bucket changes the flattened multiset exactly by the
/// bucket's contents.
proof fn lemma_nodes_upto_update(bs: Seq<Bucket>, bi: int, b2: Bucket, i: int)
    requires
        0 <= bi < i <= bs.len(),
    ensures
        nodes_upto(bs.update(bi, b2), i).to_multiset().add(bs[bi].nodes@.to_multiset())
            =~= nodes_upto(bs, i).to_multiset().add(b2.nodes@.to_multiset()),
    decreases i,
{
    broadcast use vstd::multiset::group_multiset_axioms;
    broadcast use vstd::seq_lib::group_to_multiset_ensures;

    let bs2 = bs.update(bi, b2);
    assert(nodes_upto(bs2, i) == nodes_upto(bs2, i - 1) + bs2[i - 1].nodes@);
    assert(nodes_upto(bs, i) == nodes_upto(bs, i - 1) + bs[i - 1].nodes@);
    vstd::seq_lib::lemma_multiset_commutative(nodes_upto(bs2, i - 1), bs2[i - 1].nodes@);
    vstd::seq_lib::lemma_multiset_commutative(nodes_upto(bs, i - 1), bs[i - 1].nodes@);
    if bi == i - 1 {
        lemma_nodes_upto_prefix(bs, bs2, i - 1);
        assert(bs2[i - 1] == b2);
        assert(nodes_upto(bs2, i).to_multiset() =~= nodes_upto(bs, i - 1).to_multiset().add(
            b2.nodes@.to_multiset(),
        ));
        assert(nodes_upto(bs2, i).to_multiset().add(bs[bi].nodes@.to_multiset())
            =~= nodes_upto(bs, i).to_multiset().add(b2.nodes@.to_multiset()));
    } else {
        lemma_nodes_upto_update(bs, bi, b2, i - 1);
        assert(bs2[i - 1] == bs[i - 1]);
        assert(nodes_upto(bs2, i - 1).to_multiset().add(bs[bi].nodes@.to_multiset()) =~= nodes_upto(
            bs,
            i - 1,
        ).to_multiset().add(b2.nodes@.to_multiset()));
        assert forall|e: Node|
            nodes_upto(bs2, i).to_multiset().add(bs[bi].nodes@.to_multiset()).count(e)
                == nodes_upto(bs, i).to_multiset().add(b2.nodes@.to_multiset()).count(e) by {
            assert(nodes_upto(bs2, i - 1).to_multiset().add(bs[bi].nodes@.to_multiset()).count(e)
                == nodes_upto(bs, i - 1).to_multiset().add(b2.nodes@.to_multiset()).count(e));
            assert(nodes_upto(bs2, i).to_multiset() == nodes_upto(bs2, i - 1).to_multiset().add(
                bs[i - 1].nodes@.to_multiset(),
            ));
            assert(nodes_upto(bs, i).to_multiset() == nodes_upto(bs, i - 1).to_multiset().add(
                bs[i - 1].nodes@.to_multiset(),
            ));
            assert(nodes_upto(bs2, i).to_multiset().count(e) == nodes_upto(bs2, i - 1).to_multiset()
                .add(bs[i - 1].nodes@.to_multiset()).count(e));
            assert(nodes_upto(bs, i).to_multiset().count(e) == nodes_upto(bs, i - 1).to_multiset()
                .add(bs[i - 1].nodes@.to_multiset()).count(e));
        }
        assert(nodes_upto(bs2, i).to_multiset().add(bs[bi].nodes@.to_multiset())
            =~= nodes_upto(bs, i).to_multiset().add(b2.nodes@.to_multiset()));
    }
}

/// Sequences with equal multisets hold the same identifiers.
proof fn lemma_has_id_congruence(s1: Seq<Node>, s2: Seq<Node>)
    requires
        s1.to_multiset() == s2.to_multiset(),
    ensures
        forall|id: Seq<u8>| #[trigger] seq_has_id(s1, id) <==> #[trigger] seq_has_id(s2, id),
{
    broadcast use vstd::seq_lib::group_to_multiset_ensures;
    broadcast use vstd::multiset::group_multiset_axioms;

    assert forall|id: Seq<u8>| #[trigger] seq_has_id(s1, id) implies seq_has_id(s2, id) by {
        let k = choose|k: int| 0 <= k < s1.len() && (#[trigger] s1[k]).id_spec() == id;
        let x = s1[k];
        assert(s1.contains(x));
        assert(s2.to_multiset().count(x) > 0);
        assert(s2.contains(x));
        let k2 = choose|k2: int| 0 <= k2 < s2.len() && s2[k2] == x;
        assert((#[trigger] s2[k2]).id_spec() == id);
    }
    assert forall|id: Seq<u8>| #[trigger] seq_has_id(s2, id) implies seq_has_id(s1, id) by {
        let k = choose|k: int| 0 <= k < s2.len() && (#[trigger] s2[k]).id_spec() == id;
        let x = s2[k];
        assert(s2.contains(x));
        assert(s1.to_multiset().count(x) > 0);
        assert(s1.contains(x));
        let k2 = choose|k2: int| 0 <= k2 < s1.len() && s1[k2] == x;
        assert((#[trigger] s1[k2]).id_spec() == id);
    }
}

/// Inserting one node into the multiset adds exactly its identifier.
proof fn lemma_has_id_insert(s1: Seq<Node>, s2: Seq<Node>, n: Node)
    requires
        s2.to_multiset() == s1.to_multiset().insert(n),
    ensures
        forall|id: Seq<u8>| #[trigger] seq_has_id(s2, id) <==> (seq_has_id(s1, id)
            || n.id_spec() == id),
{
    broadcast use vstd::seq_lib::group_to_multiset_ensures;
    broadcast use vstd::multiset::group_multiset_axioms;

    assert forall|id: Seq<u8>| #[trigger] seq_has_id(s2, id) implies (seq_has_id(s1, id)
        || n.id_spec() == id) by {
        let k = choose|k: int| 0 <= k < s2.len() && (#[trigger] s2[k]).id_spec() == id;
        let x = s2[k];
        assert(s2.contains(x));
        assert(s2.to_multiset().count(x) > 0);
        if x != n {
            assert(s1.to_multiset().count(x) > 0);
            assert(s1.contains(x));
            let k2 = choose|k2: int| 0 <= k2 < s1.len() && s1[k2] == x;
            assert((#[trigger] s1[k2]).id_spec() == id);
        }
    }
    assert forall|id: Seq<u8>| (seq_has_id(s1, id) || n.id_spec() == id) implies #[trigger]
    seq_has_id(s2, id) by {
        if seq_has_id(s1, id) {
            let k = choose|k: int| 0 <= k < s1.len() && (#[trigger] s1[k]).id_spec() == id;
            let x = s1[k];
            assert(s1.contains(x));
            assert(s2.to_multiset().count(x) > 0);
            assert(s2.contains(x));
            let k2 = choose|k2: int| 0 <= k2 < s2.len() && s2[k2] == x;
            assert((#[trigger] s2[k2]).id_spec() == id);
        } else {
            assert(s2.to_multiset().count(n) > 0);
            assert(s2.contains(n));
            let k2 = choose|k2: int| 0 <= k2 < s2.len() && s2[k2] == n;
            assert((#[trigger] s2[k2]).id_spec() == id);
        }
    }
}

/// Finds a node with this identifier in a bucket.
fn bucket_find(b: &Bucket, id: &NodeId) -> (r: Option<usize>)
    ensures
        r matches Option::Some(j) ==> j < b.nodes@.len() && b.nodes@[j as int].id_spec() == id@,
        r is None ==> !seq_has_id(b.nodes@, id@),
{
    let mut j: usize = 0;
    while j < b.nodes.len()
        invariant
            j <= b.nodes@.len(),
            forall|x: int| 0 <= x < j ==> (#[trigger] b.nodes@[x]).id_spec() != id@,
        decreases b.nodes@.len() - j,
    {
        if b.nodes[j].id.equals(id) {
            return Some(j);
        }
        j = j + 1;
    }
    None
}

/// Finds a bad node in a bucket, oldest first.
fn bucket_find_bad(b: &Bucket) -> (r: Option<usize>)
    ensures
        r matches Option::Some(j) ==> j < b.nodes@.len() && b.nodes@[j as int].state
            == NodeState::Bad,
        r is None ==> forall|x: int|
            0 <= x < b.nodes@.len() ==> (#[trigger] b.nodes@[x]).state != NodeState::Bad,
{
    let mut j: usize = 0;
    while j < b.nodes.len()
        invariant
            j <= b.nodes@.len(),
            forall|x: int| 0 <= x < j ==> (#[trigger] b.nodes@[x]).state != NodeState::Bad,
        decreases b.nodes@.len() - j,
    {
        if matches!(b.nodes[j].state, NodeState::Bad) {
            return Some(j);
        }
        j = j + 1;
    }
    None
}

/// Copies a byte vector.
fn copy_bytes(v: &Vec<u8>) -> (r: Vec<u8>)
    ensures
        r@ == v@,
{
    let mut out: Vec<u8> = Vec::new();
    let mut i: usize = 0;
    while i < v.len()
        invariant
            i <= v@.len(),
            out@ == v@.take(i as int),
        decreases v@.len() - i,
    {
        out.push(v[i]);
        assert(out@ == v@.take(i + 1 as int));
        i = i + 1;
    }
    assert(v@.take(v@.len() as int) == v@);
    out
}

/// What a lookup finds: the target itself, or the closest contacts known.
pub enum FindNodeResult {
    /// The table holds a contact with exactly the target id.
    Node(Node),
    /// It does not; these are the up-to-K closest contacts instead.
    Nodes(Vec<Node>),
}

impl RoutingTable {
    /// The index of the one bucket a contact with this id can live in.
    pub open spec fn bucket_sel(self, id: Seq<u8>) -> int {
        let lz = seq_lz(xor_bytes(self.local_id@, id));
        if lz < self.num_buckets() - 1 {
            lz
        } else {
            self.num_buckets() - 1
        }
    }

    /// What a closest-contacts lookup promises: at most K contacts, sorted
    /// ascending by distance to `t`, and a prefix of some distance-sorted
    /// arrangement of the whole table — that is, the closest ones.
    pub open spec fn closest_post(self, t: Seq<u8>, ns: Seq<Node>) -> bool {
        &&& ns.len() == (if self.total() < K as int {
            self.total()
        } else {
            K as int
        })
        &&& nodes_sorted(t, ns)
        &&& (exists|s: Seq<Node>|
            #[trigger] s.to_multiset() == self.all_nodes().to_multiset() && nodes_sorted(t, s)
                && ns == s.take(ns.len() as int))
    }

    /// Computes the bucket index an id selects.
    fn bucket_index_for(&self, id: &NodeId) -> (r: usize)
        requires
            self.wf(),
        ensures
            r == self.bucket_sel(id@),
            r < self.buckets@.len(),
    {
        let lz = self.local_id.distance(id).leading_zero_bits();
        let last = self.buckets.len() - 1;
        if lz < last {
            lz
        } else {
            last
        }
    }

    /// An id can occur in the bucket it selects, and nowhere else.
    proof fn lemma_id_localized(self, id: Seq<u8>)
        requires
            self.wf(),
        ensures
            self.contains_id(id) <==> seq_has_id(self.buckets@[self.bucket_sel(id)].nodes@, id),
    {
        let sel = self.bucket_sel(id);
        let nb = self.num_buckets();
        crate::id::lemma_seq_lz_bound(xor_bytes(self.local_id@, id), 0);
        assert(0 <= sel < nb);
        if seq_has_id(self.buckets@[sel].nodes@, id) {
            let j = choose|j: int|
                0 <= j < self.buckets@[sel].nodes@.len() && (#[trigger] self.buckets@[sel].nodes@[j]).id_spec()
                    == id;
            lemma_nodes_upto_contains(self.buckets@, nb, sel, j);
            let x = self.buckets@[sel].nodes@[j];
            let k = choose|k: int|
                0 <= k < self.all_nodes().len() && #[trigger] self.all_nodes()[k] == x;
            assert((#[trigger] self.all_nodes()[k]).id_spec() == id);
        }
        if self.contains_id(id) {
            let k = choose|k: int|
                0 <= k < self.all_nodes().len() && (#[trigger] self.all_nodes()[k]).id_spec() == id;
            lemma_nodes_upto_membership(self.buckets@, nb, k);
            let (bi, j) = choose|bi: int, j: int|
                0 <= bi < nb && 0 <= j < self.buckets@[bi].nodes@.len() && nodes_upto(
                    self.buckets@,
                    nb,
                )[k] == self.buckets@[bi].nodes@[j];
            let x = self.buckets@[bi].nodes@[j];
            assert(self.bucket_wf(bi));
            assert(x.id_spec() == id);
            assert(node_lz(self.local_id@, x) == seq_lz(xor_bytes(self.local_id@, id)));
            if bi < nb - 1 {
                assert(node_lz(self.local_id@, x) == bi);
            } else {
                assert(node_lz(self.local_id@, x) >= bi);
            }
            assert(bi == sel);
            assert((#[trigger] self.buckets@[sel].nodes@[j]).id_spec() == id);
        }
    }

    /// Splits the last bucket in two: contacts whose prefix length equals
    /// its index stay, the longer prefixes — the local id's own range —
    /// move into a fresh last bucket.
    fn split_last(&mut self)
        requires
            old(self).wf(),
            old(self).num_buckets() < ID_BITS,
        ensures
            final(self).wf(),
            final(self).num_buckets() == old(self).num_buckets() + 1,
            final(self).local_id == old(self).local_id,
            final(self).token_secret@ == old(self).token_secret@,
            final(self).token_secret_previous@ == old(self).token_secret_previous@,
            final(self).all_nodes().to_multiset() == old(self).all_nodes().to_multiset(),
    {
        proof {
            broadcast use vstd::seq_lib::group_to_multiset_ensures;
            broadcast use vstd::multiset::group_multiset_axioms;

        }
        let ghost bs0 = self.buckets@;
        let li = self.buckets.len() - 1;
        let last_bucket = match self.buckets.pop() {
            Option::Some(b) => b,
            Option::None => vstd::pervasive::unreached(),
        };
        proof {
            assert(last_bucket == bs0[li as int]);
            assert(self.buckets@ == bs0.drop_last());
        }
        let ghost onodes = last_bucket.nodes@;
        let mut stay: Vec<Node> = Vec::new();
        let mut mv: Vec<Node> = Vec::new();
        let mut t: usize = 0;
        while t < last_bucket.nodes.len()
            invariant
                t <= onodes.len(),
                last_bucket.nodes@ == onodes,
                old(self).wf(),
                li == bs0.len() - 1,
                li == old(self).num_buckets() - 1,
                bs0 == old(self).buckets@,
                onodes == bs0[li as int].nodes@,
                self.local_id == old(self).local_id,
                self.token_secret@ == old(self).token_secret@,
                self.token_secret_previous@ == old(self).token_secret_previous@,
                self.buckets@ == bs0.drop_last(),
                forall|j: int|
                    0 <= j < stay@.len() ==> node_lz(old(self).local_id@, #[trigger] stay@[j])
                        == li,
                forall|j: int|
                    0 <= j < mv@.len() ==> node_lz(old(self).local_id@, #[trigger] mv@[j]) >= li
                        + 1,
                forall|j: int|
                    0 <= j < stay@.len() ==> from_prefix(onodes, t as int, #[trigger] stay@[j]),
                forall|j: int|
                    0 <= j < mv@.len() ==> from_prefix(onodes, t as int, #[trigger] mv@[j]),
                forall|j1: int, j2: int|
                    0 <= j1 < j2 < stay@.len() ==> (#[trigger] stay@[j1]).id_spec() != (
                    #[trigger] stay@[j2]).id_spec(),
                forall|j1: int, j2: int|
                    0 <= j1 < j2 < mv@.len() ==> (#[trigger] mv@[j1]).id_spec() != (
                    #[trigger] mv@[j2]).id_spec(),
                stay@.to_multiset().add(mv@.to_multiset()) == onodes.take(t as int).to_multiset(),
                stay@.len() + mv@.len() == t,
            decreases onodes.len() - t,
        {
            proof {
                broadcast use vstd::seq_lib::group_to_multiset_ensures;
                broadcast use vstd::multiset::group_multiset_axioms;

            }
            let node = last_bucket.nodes[t];
            let lzv = self.local_id.distance(&node.id).leading_zero_bits();
            proof {
                assert(old(self).bucket_wf(li as int));
                assert(node == onodes[t as int]);
                assert(node_lz(old(self).local_id@, node) >= li);
            }
            let ghost stay0 = stay@;
            let ghost mv0 = mv@;
            if lzv == li {
                proof {
                    assert forall|j: int| 0 <= j < stay@.len() implies (#[trigger] stay@[j]).id_spec()
                        != node.id_spec() by {
                        assert(from_prefix(onodes, t as int, stay@[j]));
                        let o = choose|o: int| 0 <= o < t && stay@[j] == #[trigger] onodes[o];
                        assert(old(self).bucket_wf(li as int));
                        assert(onodes[o].id_spec() != onodes[t as int].id_spec());
                    }
                }
                stay.push(node);
            } else {
                proof {
                    assert forall|j: int| 0 <= j < mv@.len() implies (#[trigger] mv@[j]).id_spec()
                        != node.id_spec() by {
                        assert(from_prefix(onodes, t as int, mv@[j]));
                        let o = choose|o: int| 0 <= o < t && mv@[j] == #[trigger] onodes[o];
                        assert(old(self).bucket_wf(li as int));
                        assert(onodes[o].id_spec() != onodes[t as int].id_spec());
                    }
                }
                mv.push(node);
            }
            proof {
                assert(onodes.take(t + 1) =~= onodes.take(t as int).push(onodes[t as int]));
                assert(onodes.take(t + 1).to_multiset() == onodes.take(t as int).to_multiset()
                    .insert(node));
                if lzv == li {
                    assert(stay@ == stay0.push(node));
                    assert(stay@.to_multiset() == stay0.to_multiset().insert(node));
                    assert(stay@.to_multiset().add(mv@.to_multiset()) =~= onodes.take(
                        t + 1,
                    ).to_multiset());
                } else {
                    assert(mv@ == mv0.push(node));
                    assert(mv@.to_multiset() == mv0.to_multiset().insert(node));
                    assert(stay@.to_multiset().add(mv@.to_multiset()) =~= onodes.take(
                        t + 1,
                    ).to_multiset());
                }
            }
            t = t + 1;
        }
        proof {
            assert(onodes.take(onodes.len() as int) =~= onodes);
        }
        self.buckets.push(Bucket { nodes: stay });
        self.buckets.push(Bucket { nodes: mv });
        proof {
            broadcast use vstd::seq_lib::group_to_multiset_ensures;
            broadcast use vstd::multiset::group_multiset_axioms;

            let newbs = self.buckets@;
            let nli = li as int;
            assert(newbs.len() == bs0.len() + 1);
            assert(forall|j: int| 0 <= j < nli ==> newbs[j] == bs0[j]);
            assert(newbs[nli].nodes@ == stay@);
            assert(newbs[nli + 1].nodes@ == mv@);
            // capacities: the partition cannot outgrow the bucket it split
            assert(stay@.to_multiset().add(mv@.to_multiset()) == onodes.to_multiset());
            assert(stay@.len() + mv@.len() == onodes.len());
            assert(onodes.len() <= K) by {
                assert(old(self).bucket_wf(nli));
            }
            // well-formedness bucket by bucket
            assert forall|i: int| 0 <= i < self.num_buckets() implies self.bucket_wf(i) by {
                if i < nli {
                    assert(old(self).bucket_wf(i));
                    assert(newbs[i] == bs0[i]);
                } else if i == nli {
                    assert(newbs[i].nodes@ == stay@);
                } else {
                    assert(newbs[i].nodes@ == mv@);
                }
            }
            // the flattened contents are a permutation of what they were
            lemma_nodes_upto_prefix(newbs, bs0, nli);
            assert(nodes_upto(newbs, nli + 1) == nodes_upto(newbs, nli) + stay@);
            assert(nodes_upto(newbs, nli + 2) == nodes_upto(newbs, nli + 1) + mv@);
            assert(nodes_upto(bs0, nli + 1) == nodes_upto(bs0, nli) + onodes);
            vstd::seq_lib::lemma_multiset_commutative(nodes_upto(newbs, nli + 1), mv@);
            vstd::seq_lib::lemma_multiset_commutative(nodes_upto(newbs, nli), stay@);
            vstd::seq_lib::lemma_multiset_commutative(nodes_upto(bs0, nli), onodes);
            assert forall|e: Node|
                self.all_nodes().to_multiset().count(e) == old(self).all_nodes().to_multiset()
                    .count(e) by {
                assert(nodes_upto(newbs, nli + 1).to_multiset().add(mv@.to_multiset()).count(e)
                    == nodes_upto(newbs, nli + 1).to_multiset().count(e) + mv@.to_multiset().count(
                    e,
                ));
                assert(nodes_upto(newbs, nli).to_multiset().add(stay@.to_multiset()).count(e)
                    == nodes_upto(newbs, nli).to_multiset().count(e) + stay@.to_multiset().count(
                    e,
                ));
                assert(nodes_upto(bs0, nli).to_multiset().add(onodes.to_multiset()).count(e)
                    == nodes_upto(bs0, nli).to_multiset().count(e) + onodes.to_multiset().count(e));
                assert(stay@.to_multiset().add(mv@.to_multiset()).count(e) == stay@.to_multiset()
                    .count(e) + mv@.to_multiset().count(e));
            }
            assert(self.all_nodes().to_multiset() =~= old(self).all_nodes().to_multiset());
        }
    }
}

impl RoutingTable {
    /// Inserts a contact under the Kademlia rules: an id already present
    /// leaves the table untouched; otherwise the bucket the id selects
    /// takes the node, splitting the last bucket as often as needed; a
    /// full bucket that cannot split evicts its oldest bad node, or
    /// refuses the insertion when it has none.
    pub fn insert_node(&mut self, n: Node) -> (r: Result<(), ErrorKind>)
        requires
            old(self).wf(),
        ensures
            final(self).wf(),
            final(self).local_id == old(self).local_id,
            final(self).token_secret@ == old(self).token_secret@,
            final(self).token_secret_previous@ == old(self).token_secret_previous@,
            old(self).contains_id(n.id_spec()) ==> r is Ok && final(self).buckets@ == old(self).buckets@,
            (!old(self).contains_id(n.id_spec()) && r is Ok) ==> final(self).contains_id(
                n.id_spec(),
            ) && (final(self).all_nodes().to_multiset() == old(self).all_nodes().to_multiset()
                .insert(n) || exists|evicted: Node|
                old(self).all_nodes().to_multiset().count(evicted) > 0 && evicted.state
                    == NodeState::Bad && final(self).all_nodes().to_multiset() == old(self).all_nodes().to_multiset().remove(evicted).insert(n)),
            r matches Err(e) ==> {
                let sel = final(self).bucket_sel(n.id_spec());
                &&& e == ErrorKind::BucketFull
                &&& !old(self).contains_id(n.id_spec())
                &&& !final(self).contains_id(n.id_spec())
                &&& final(self).all_nodes().to_multiset() == old(self).all_nodes().to_multiset()
                &&& final(self).buckets@[sel].nodes@.len() == K
                &&& (sel < final(self).num_buckets() - 1 || final(self).num_buckets() == ID_BITS)
                &&& (forall|j: int|
                    0 <= j < final(self).buckets@[sel].nodes@.len() ==> (
                    #[trigger] final(self).buckets@[sel].nodes@[j]).state != NodeState::Bad)
            },
    {
        proof {
            broadcast use vstd::seq_lib::group_to_multiset_ensures;
            broadcast use vstd::multiset::group_multiset_axioms;

        }
        let bi0 = self.bucket_index_for(&n.id);
        if bucket_find(&self.buckets[bi0], &n.id).is_some() {
            proof {
                self.lemma_id_localized(n.id_spec());
            }
            return Ok(());
        }
        proof {
            self.lemma_id_localized(n.id_spec());
            assert(!self.contains_id(n.id_spec()));
        }
        let ghost orig = *self;
        let mut bi = bi0;
        while self.buckets[bi].nodes.len() >= K && bi == self.buckets.len() - 1
            && self.buckets.len() < ID_BITS
            invariant
                self.wf(),
                bi == self.bucket_sel(n.id_spec()),
                bi < self.buckets@.len(),
                !self.contains_id(n.id_spec()),
                self.local_id == orig.local_id,
                self.token_secret@ == orig.token_secret@,
                self.token_secret_previous@ == orig.token_secret_previous@,
                self.all_nodes().to_multiset() == orig.all_nodes().to_multiset(),
            decreases ID_BITS - self.buckets@.len(),
        {
            let ghost pre = *self;
            self.split_last();
            proof {
                lemma_has_id_congruence(pre.all_nodes(), self.all_nodes());
                assert(!self.contains_id(n.id_spec()));
            }
            bi = self.bucket_index_for(&n.id);
        }
        let ghost pre = *self;
        proof {
            self.lemma_id_localized(n.id_spec());
            assert(!seq_has_id(self.buckets@[bi as int].nodes@, n.id_spec()));
        }
        if self.buckets[bi].nodes.len() < K {
            let mut bkt = self.buckets.remove(bi);
            let ghost bnodes0 = bkt.nodes@;
            bkt.nodes.push(n);
            let ghost bkt2 = bkt;
            self.buckets.insert(bi, bkt);
            proof {
                self.lemma_insert_at_bucket(pre, bi as int, bkt2, bnodes0, n);
            }
            Ok(())
        } else {
            match bucket_find_bad(&self.buckets[bi]) {
                Option::Some(j) => {
                    let mut bkt = self.buckets.remove(bi);
                    let ghost bnodes0 = bkt.nodes@;
                    let _evicted = bkt.nodes.remove(j);
                    bkt.nodes.push(n);
                    let ghost bkt2 = bkt;
                    self.buckets.insert(bi, bkt);
                    proof {
                        self.lemma_evict_at_bucket(pre, bi as int, bkt2, bnodes0, j as int, n);
                    }
                    Ok(())
                },
                Option::None => {
                    proof {
                        assert(*self == pre);
                        assert(self.bucket_wf(bi as int));
                    }
                    Err(ErrorKind::BucketFull)
                },
            }
        }
    }

    /// After pushing `n` into bucket `bi` of `pre` (which did not hold its
    /// id anywhere, and had room in that bucket), the table is again
    /// well-formed, holds the id, and gained exactly `n`.
    proof fn lemma_insert_at_bucket(
        self,
        pre: RoutingTable,
        bi: int,
        bkt2: Bucket,
        bnodes0: Seq<Node>,
        n: Node,
    )
        requires
            pre.wf(),
            0 <= bi < pre.num_buckets(),
            bi == pre.bucket_sel(n.id_spec()),
            !pre.contains_id(n.id_spec()),
            bnodes0 == pre.buckets@[bi].nodes@,
            bnodes0.len() < K,
            bkt2.nodes@ == bnodes0.push(n),
            self.buckets@ == pre.buckets@.remove(bi).insert(bi, bkt2),
            self.local_id == pre.local_id,
            self.token_secret@ == pre.token_secret@,
            self.token_secret_previous@ == pre.token_secret_previous@,
        ensures
            self.wf(),
            self.contains_id(n.id_spec()),
            self.all_nodes().to_multiset() == pre.all_nodes().to_multiset().insert(n),
    {
        broadcast use vstd::seq_lib::group_to_multiset_ensures;
        broadcast use vstd::multiset::group_multiset_axioms;

        assert(self.buckets@ =~= pre.buckets@.update(bi, bkt2));
        pre.lemma_id_localized(n.id_spec());
        assert(!seq_has_id(bnodes0, n.id_spec()));
        // well-formedness bucket by bucket
        assert forall|i: int| 0 <= i < self.num_buckets() implies self.bucket_wf(i) by {
            assert(pre.bucket_wf(i));
            if i == bi {
                assert(bkt2.nodes@ == bnodes0.push(n));
                crate::id::lemma_seq_lz_bound(xor_bytes(pre.local_id@, n.id_spec()), 0);
                assert(node_lz(self.local_id@, n) == seq_lz(xor_bytes(pre.local_id@, n.id_spec())));
                assert forall|j1: int, j2: int|
                    0 <= j1 < j2 < bkt2.nodes@.len() implies (#[trigger] bkt2.nodes@[j1]).id_spec()
                    != (#[trigger] bkt2.nodes@[j2]).id_spec() by {
                    if j2 == bkt2.nodes@.len() - 1 {
                        assert(bkt2.nodes@[j1] == bnodes0[j1]);
                        assert(!((#[trigger] bnodes0[j1]).id_spec() == n.id_spec()));
                    }
                }
            } else {
                assert(self.buckets@[i] == pre.buckets@[i]);
            }
        }
        // the multiset gained exactly n
        lemma_nodes_upto_update(pre.buckets@, bi, bkt2, pre.num_buckets());
        assert(bkt2.nodes@.to_multiset() == bnodes0.to_multiset().insert(n));
        assert forall|e: Node|
            self.all_nodes().to_multiset().count(e) == pre.all_nodes().to_multiset().insert(
                n,
            ).count(e) by {
            assert(self.all_nodes().to_multiset().add(bnodes0.to_multiset()).count(e)
                == pre.all_nodes().to_multiset().add(bkt2.nodes@.to_multiset()).count(e));
        }
        assert(self.all_nodes().to_multiset() =~= pre.all_nodes().to_multiset().insert(n));
        lemma_has_id_insert(pre.all_nodes(), self.all_nodes(), n);
    }

    /// As `lemma_insert_at_bucket`, for the eviction path: a bad node at
    /// index `j` left the full bucket and `n` took its place.
    proof fn lemma_evict_at_bucket(
        self,
        pre: RoutingTable,
        bi: int,
        bkt2: Bucket,
        bnodes0: Seq<Node>,
        j: int,
        n: Node,
    )
        requires
            pre.wf(),
            0 <= bi < pre.num_buckets(),
            bi == pre.bucket_sel(n.id_spec()),
            !pre.contains_id(n.id_spec()),
            bnodes0 == pre.buckets@[bi].nodes@,
            0 <= j < bnodes0.len(),
            bnodes0[j].state == NodeState::Bad,
            bkt2.nodes@ == bnodes0.remove(j).push(n),
            self.buckets@ == pre.buckets@.remove(bi).insert(bi, bkt2),
            self.local_id == pre.local_id,
            self.token_secret@ == pre.token_secret@,
            self.token_secret_previous@ == pre.token_secret_previous@,
        ensures
            self.wf(),
            self.contains_id(n.id_spec()),
            pre.all_nodes().to_multiset().count(bnodes0[j]) > 0,
            self.all_nodes().to_multiset() == pre.all_nodes().to_multiset().remove(
                bnodes0[j],
            ).insert(n),
    {
        broadcast use vstd::seq_lib::group_to_multiset_ensures;
        broadcast use vstd::multiset::group_multiset_axioms;

        assert(self.buckets@ =~= pre.buckets@.update(bi, bkt2));
        pre.lemma_id_localized(n.id_spec());
        assert(!seq_has_id(bnodes0, n.id_spec()));
        let evicted = bnodes0[j];
        let shrunk = bnodes0.remove(j);
        // the shrunk bucket keeps placements and distinct ids
        assert(pre.bucket_wf(bi));
        assert forall|x: int| 0 <= x < shrunk.len() implies #[trigger] shrunk[x] == (if x < j {
            bnodes0[x]
        } else {
            bnodes0[x + 1]
        }) by {}
        assert forall|i: int| 0 <= i < self.num_buckets() implies self.bucket_wf(i) by {
            assert(pre.bucket_wf(i));
            if i == bi {
                crate::id::lemma_seq_lz_bound(xor_bytes(pre.local_id@, n.id_spec()), 0);
                assert forall|j1: int, j2: int|
                    0 <= j1 < j2 < bkt2.nodes@.len() implies (#[trigger] bkt2.nodes@[j1]).id_spec()
                    != (#[trigger] bkt2.nodes@[j2]).id_spec() by {
                    if j2 == bkt2.nodes@.len() - 1 {
                        assert(bkt2.nodes@[j1] == shrunk[j1]);
                        assert(!seq_has_id(bnodes0, n.id_spec()));
                        let oj: int = if j1 < j { j1 } else { j1 + 1 };
                        assert(shrunk[j1] == bnodes0[oj]);
                        assert(!((#[trigger] bnodes0[oj]).id_spec() == n.id_spec()));
                    }
                }
            } else {
                assert(self.buckets@[i] == pre.buckets@[i]);
            }
        }
        // multiset bookkeeping: out with the bad node, in with n
        lemma_nodes_upto_contains(pre.buckets@, pre.num_buckets(), bi, j);
        assert(pre.all_nodes().contains(evicted));
        assert(pre.all_nodes().to_multiset().count(evicted) > 0);
        lemma_nodes_upto_update(pre.buckets@, bi, bkt2, pre.num_buckets());
        assert(shrunk.to_multiset() == bnodes0.to_multiset().remove(evicted));
        assert(bkt2.nodes@.to_multiset() == bnodes0.to_multiset().remove(evicted).insert(n));
        assert(bnodes0.contains(evicted));
        assert(bnodes0.to_multiset().count(evicted) > 0);
        assert forall|e: Node|
            self.all_nodes().to_multiset().count(e) == pre.all_nodes().to_multiset().remove(
                evicted,
            ).insert(n).count(e) by {
            assert(self.all_nodes().to_multiset().add(bnodes0.to_multiset()).count(e)
                == pre.all_nodes().to_multiset().add(bkt2.nodes@.to_multiset()).count(e));
        }
        assert(self.all_nodes().to_multiset() =~= pre.all_nodes().to_multiset().remove(
            evicted,
        ).insert(n));
        assert(self.all_nodes().to_multiset().count(n) > 0);
        assert(self.all_nodes().contains(n));
        let k2 = choose|k2: int| 0 <= k2 < self.all_nodes().len() && self.all_nodes()[k2] == n;
        assert((#[trigger] self.all_nodes()[k2]).id_spec() == n.id_spec());
    }
}

impl RoutingTable {
    /// Looks an id up and, when it is new, inserts a fresh questionable
    /// contact for it. A full bucket that cannot split and holds no bad
    /// node refuses the insertion; callers treat that as a soft failure.
    pub fn get_or_add(&mut self, id: &NodeId, addr: PeerAddr) -> (r: Result<(), ErrorKind>)
        requires
            old(self).wf(),
        ensures
            final(self).wf(),
            final(self).local_id == old(self).local_id,
            final(self).token_secret@ == old(self).token_secret@,
            final(self).token_secret_previous@ == old(self).token_secret_previous@,
            r is Ok ==> final(self).contains_id(id@),
            old(self).contains_id(id@) ==> r is Ok && final(self).buckets@ == old(self).buckets@,
            r matches Err(e) ==> e == ErrorKind::BucketFull && !final(self).contains_id(id@)
                && final(self).all_nodes().to_multiset() == old(self).all_nodes().to_multiset()
                && old(self).total() >= K,
            forall|x: Seq<u8>| #[trigger] final(self).contains_id(x) ==> old(self).contains_id(x)
                || x == id@,
            (!old(self).contains_id(id@) && r is Ok) ==> (exists|n: Node|
                n.id_spec() == id@ && n.addr == addr && n.state == NodeState::Questionable && (
                final(self).all_nodes().to_multiset() == old(self).all_nodes().to_multiset()
                    .insert(n) || exists|evicted: Node|
                    old(self).all_nodes().to_multiset().count(evicted) > 0 && evicted.state
                        == NodeState::Bad && final(self).all_nodes().to_multiset() == old(self).all_nodes().to_multiset().remove(evicted).insert(n))),
    {
        proof {
            broadcast use vstd::seq_lib::group_to_multiset_ensures;
            broadcast use vstd::multiset::group_multiset_axioms;

        }
        let ghost pre = *self;
        let n = Node::new(*id, addr);
        let r = self.insert_node(n);
        proof {
            if r is Err {
                let sel = self.bucket_sel(id@);
                crate::id::lemma_seq_lz_bound(xor_bytes(self.local_id@, id@), 0);
                assert(0 <= sel < self.num_buckets());
                assert(self.buckets@[sel].nodes@.len() == K);
                lemma_nodes_upto_lower(self.buckets@, self.num_buckets(), sel);
                assert(self.total() >= K);
                assert(self.all_nodes().to_multiset().len() == pre.all_nodes().to_multiset()
                    .len());
                assert(pre.total() >= K);
            }
            if !pre.contains_id(id@) && r is Ok {
                assert(n.id_spec() == id@ && n.addr == addr && n.state
                    == NodeState::Questionable);
            }
            if pre.contains_id(id@) {
                assert(self.buckets@ == pre.buckets@);
                assert(self.all_nodes() == pre.all_nodes());
            } else {
                match r {
                    Result::Ok(()) => {
                        if self.all_nodes().to_multiset() == pre.all_nodes().to_multiset().insert(
                            n,
                        ) {
                            lemma_has_id_insert(pre.all_nodes(), self.all_nodes(), n);
                        } else {
                            let evicted = choose|evicted: Node|
                                pre.all_nodes().to_multiset().count(evicted) > 0 && evicted.state
                                    == NodeState::Bad && self.all_nodes().to_multiset() == pre
                                    .all_nodes().to_multiset().remove(evicted).insert(n);
                            lemma_has_id_remove_insert(
                                pre.all_nodes(),
                                self.all_nodes(),
                                evicted,
                                n,
                            );
                        }
                    },
                    Result::Err(_) => {
                        lemma_has_id_congruence(pre.all_nodes(), self.all_nodes());
                    },
                }
            }
        }
        r
    }

    /// Inserts a prepared contact, keeping whatever the table already
    /// holds under that id; a refused insertion is swallowed, as callers
    /// treat a full table as a no-op.
    pub fn add_node(&mut self, node: Node)
        requires
            old(self).wf(),
        ensures
            final(self).wf(),
            final(self).local_id == old(self).local_id,
            final(self).token_secret@ == old(self).token_secret@,
            final(self).token_secret_previous@ == old(self).token_secret_previous@,
            old(self).contains_id(node.id_spec()) ==> final(self).buckets@ == old(self).buckets@,
            !old(self).contains_id(node.id_spec()) ==> ({
                ||| (final(self).contains_id(node.id_spec()) && (final(self).all_nodes().to_multiset() == old(self).all_nodes().to_multiset().insert(node)
                    || exists|evicted: Node|
                    old(self).all_nodes().to_multiset().count(evicted) > 0 && evicted.state
                        == NodeState::Bad && final(self).all_nodes().to_multiset() == old(self).all_nodes().to_multiset().remove(evicted).insert(node)))
                ||| ({
                    let sel = final(self).bucket_sel(node.id_spec());
                    &&& !final(self).contains_id(node.id_spec())
                    &&& final(self).all_nodes().to_multiset() == old(self).all_nodes()
                        .to_multiset()
                    &&& old(self).total() >= K
                    &&& final(self).buckets@[sel].nodes@.len() == K
                    &&& (sel < final(self).num_buckets() - 1 || final(self).num_buckets()
                        == ID_BITS)
                    &&& (forall|j: int|
                        0 <= j < final(self).buckets@[sel].nodes@.len() ==> (
                        #[trigger] final(self).buckets@[sel].nodes@[j]).state != NodeState::Bad)
                })
            }),
    {
        proof {
            broadcast use vstd::seq_lib::group_to_multiset_ensures;
            broadcast use vstd::multiset::group_multiset_axioms;

        }
        let ghost pre = *self;
        let r = self.insert_node(node);
        proof {
            if r is Err {
                let sel = self.bucket_sel(node.id_spec());
                crate::id::lemma_seq_lz_bound(xor_bytes(self.local_id@, node.id_spec()), 0);
                assert(0 <= sel < self.num_buckets());
                assert(self.buckets@[sel].nodes@.len() == K);
                lemma_nodes_upto_lower(self.buckets@, self.num_buckets(), sel);
                assert(self.total() >= K);
                assert(self.all_nodes().to_multiset().len() == pre.all_nodes().to_multiset()
                    .len());
                assert(pre.total() >= K);
            }
        }
    }

    /// Stamps the contact with this id, if any, as having just sent us a
    /// request: its timestamps and classification move, nothing else does.
    pub fn mark_request_from(&mut self, id: &NodeId)
        requires
            old(self).wf(),
        ensures
            final(self).wf(),
            final(self).local_id == old(self).local_id,
            final(self).token_secret@ == old(self).token_secret@,
            final(self).token_secret_previous@ == old(self).token_secret_previous@,
            final(self).num_buckets() == old(self).num_buckets(),
            forall|x: Seq<u8>| #[trigger] final(self).contains_id(x) == old(self).contains_id(x),
            final(self).total() == old(self).total(),
            old(self).contains_id(id@) ==> stamped_contact(*final(self), id@),
    {
        proof {
            broadcast use vstd::seq_lib::group_to_multiset_ensures;
            broadcast use vstd::multiset::group_multiset_axioms;

        }
        let bi = self.bucket_index_for(id);
        let found = bucket_find(&self.buckets[bi], id);
        match found {
            Option::None => {
                proof {
                    assert forall|x: Seq<u8>| #[trigger] self.contains_id(x) == old(self).contains_id(x) by {}
                    if old(self).contains_id(id@) {
                        old(self).lemma_id_localized(id@);
                    }
                }
            },
            Option::Some(j) => {
                let ghost pre = *self;
                let mut bkt = self.buckets.remove(bi);
                let ghost bnodes0 = bkt.nodes@;
                let mut node = bkt.nodes[j];
                node.mark_successful_request_from();
                let _ = bkt.nodes.remove(j);
                bkt.nodes.insert(j, node);
                let ghost bkt2 = bkt;
                self.buckets.insert(bi, bkt);
                proof {
                    assert(bkt2.nodes@ =~= bnodes0.update(j as int, node));
                    assert(self.buckets@ =~= pre.buckets@.update(bi as int, bkt2));
                    assert(node.id_spec() == bnodes0[j as int].id_spec());
                    // well-formedness: same ids at the same places
                    assert forall|i: int| 0 <= i < self.num_buckets() implies self.bucket_wf(
                        i,
                    ) by {
                        assert(pre.bucket_wf(i));
                        if i == bi {
                            assert(forall|x: int|
                                0 <= x < bkt2.nodes@.len() ==> (#[trigger] bkt2.nodes@[x]).id_spec()
                                    == bnodes0[x].id_spec());
                        } else {
                            assert(self.buckets@[i] == pre.buckets@[i]);
                        }
                    }
                    // same node count
                    lemma_nodes_upto_update(pre.buckets@, bi as int, bkt2, pre.num_buckets());
                    assert(self.all_nodes().to_multiset().add(bnodes0.to_multiset()).len()
                        == pre.all_nodes().to_multiset().add(bkt2.nodes@.to_multiset()).len());
                    assert(self.all_nodes().to_multiset().len() == pre.all_nodes().to_multiset()
                        .len());
                    assert(self.total() == pre.total());
                    // same ids present
                    assert forall|x: Seq<u8>| #[trigger] self.contains_id(x) == pre.contains_id(
                        x,
                    ) by {
                        pre.lemma_id_localized(x);
                        self.lemma_id_localized(x);
                        crate::id::lemma_seq_lz_bound(xor_bytes(pre.local_id@, x), 0);
                        assert(self.bucket_sel(x) == pre.bucket_sel(x));
                        let sel = pre.bucket_sel(x);
                        assert(0 <= sel < pre.num_buckets());
                        if sel == bi {
                            assert(forall|y: int|
                                0 <= y < bkt2.nodes@.len() ==> (#[trigger] bkt2.nodes@[y]).id_spec()
                                    == bnodes0[y].id_spec());
                            if seq_has_id(bkt2.nodes@, x) {
                                let y = choose|y: int|
                                    0 <= y < bkt2.nodes@.len() && (#[trigger] bkt2.nodes@[y]).id_spec()
                                        == x;
                                assert((#[trigger] bnodes0[y]).id_spec() == x);
                            }
                            if seq_has_id(bnodes0, x) {
                                let y = choose|y: int|
                                    0 <= y < bnodes0.len() && (#[trigger] bnodes0[y]).id_spec()
                                        == x;
                                assert((#[trigger] bkt2.nodes@[y]).id_spec() == x);
                            }
                        } else {
                            assert(self.buckets@[sel] == pre.buckets@[sel]);
                        }
                    }
                    // the stamped node still stands at its place, marked
                    lemma_nodes_upto_contains(self.buckets@, self.num_buckets(), bi as int, j as int);
                    let marked = self.buckets@[bi as int].nodes@[j as int];
                    assert(marked == node);
                    assert(node.last_request_received is Some);
                    assert(node.state != NodeState::Questionable);
                    let k = choose|k: int|
                        0 <= k < self.all_nodes().len() && #[trigger] self.all_nodes()[k] == marked;
                    assert((#[trigger] self.all_nodes()[k]).id_spec() == id@);
                }
            },
        }
    }

    /// The up-to-K contacts closest to `target`, closest first.
    pub fn find_nodes(&self, target: &NodeId) -> (r: Vec<Node>)
        requires
            self.wf(),
        ensures
            self.closest_post(target@, r@),
    {
        let mut all: Vec<Node> = Vec::new();
        let mut i: usize = 0;
        while i < self.buckets.len()
            invariant
                self.wf(),
                i <= self.buckets@.len(),
                all@ == nodes_upto(self.buckets@, i as int),
            decreases self.buckets@.len() - i,
        {
            let mut j: usize = 0;
            while j < self.buckets[i].nodes.len()
                invariant
                    self.wf(),
                    i < self.buckets@.len(),
                    j <= self.buckets@[i as int].nodes@.len(),
                    all@ == nodes_upto(self.buckets@, i as int) + self.buckets@[i as int].nodes@
                        .take(j as int),
                decreases self.buckets@[i as int].nodes@.len() - j,
            {
                all.push(self.buckets[i].nodes[j]);
                proof {
                    assert(self.buckets@[i as int].nodes@.take(j + 1)
                        =~= self.buckets@[i as int].nodes@.take(j as int).push(
                        self.buckets@[i as int].nodes@[j as int],
                    ));
                    assert(all@ =~= nodes_upto(self.buckets@, i as int)
                        + self.buckets@[i as int].nodes@.take(j + 1));
                }
                j = j + 1;
            }
            proof {
                assert(self.buckets@[i as int].nodes@.take(
                    self.buckets@[i as int].nodes@.len() as int,
                ) =~= self.buckets@[i as int].nodes@);
                assert(all@ =~= nodes_upto(self.buckets@, i + 1));
            }
            i = i + 1;
        }
        proof {
            assert(all@ == self.all_nodes());
        }
        let sorted = sort_by_distance(all, target);
        let limit = if sorted.len() < K {
            sorted.len()
        } else {
            K
        };
        let mut r: Vec<Node> = Vec::new();
        let mut x: usize = 0;
        while x < limit
            invariant
                x <= limit,
                limit <= sorted@.len(),
                r@ == sorted@.take(x as int),
            decreases limit - x,
        {
            r.push(sorted[x]);
            proof {
                assert(r@ =~= sorted@.take(x + 1));
            }
            x = x + 1;
        }
        proof {
            assert(r@ == sorted@.take(limit as int));
            assert(sorted@.to_multiset() == self.all_nodes().to_multiset());
            assert(nodes_sorted(target@, r@));
        }
        r
    }

    /// Looks the target up: the matching contact when the table holds it,
    /// the up-to-K closest contacts otherwise.
    pub fn find_node(&self, target: &NodeId) -> (r: FindNodeResult)
        requires
            self.wf(),
        ensures
            self.contains_id(target@) ==> (r matches FindNodeResult::Node(n) && n.id_spec()
                == target@ && self.all_nodes().contains(n)),
            !self.contains_id(target@) ==> (r matches FindNodeResult::Nodes(ns)
                && self.closest_post(target@, ns@)),
    {
        let bi = self.bucket_index_for(target);
        proof {
            self.lemma_id_localized(target@);
        }
        match bucket_find(&self.buckets[bi], target) {
            Option::Some(j) => {
                let node = self.buckets[bi].nodes[j];
                proof {
                    lemma_nodes_upto_contains(
                        self.buckets@,
                        self.num_buckets(),
                        bi as int,
                        j as int,
                    );
                    let k = choose|k: int|
                        0 <= k < self.all_nodes().len() && #[trigger] self.all_nodes()[k] == node;
                    assert((#[trigger] self.all_nodes()[k]).id_spec() == target@);
                }
                FindNodeResult::Node(node)
            },
            Option::None => FindNodeResult::Nodes(self.find_nodes(target)),
        }
    }
}

/// Removing one node and inserting another adds no identifier but the
/// inserted one.
proof fn lemma_has_id_remove_insert(s1: Seq<Node>, s2: Seq<Node>, ev: Node, n: Node)
    requires
        s2.to_multiset() == s1.to_multiset().remove(ev).insert(n),
    ensures
        forall|id: Seq<u8>| #[trigger] seq_has_id(s2, id) ==> seq_has_id(s1, id) || n.id_spec()
            == id,
{
    broadcast use vstd::seq_lib::group_to_multiset_ensures;
    broadcast use vstd::multiset::group_multiset_axioms;

    assert forall|id: Seq<u8>| #[trigger] seq_has_id(s2, id) implies seq_has_id(s1, id)
        || n.id_spec() == id by {
        let k = choose|k: int| 0 <= k < s2.len() && (#[trigger] s2[k]).id_spec() == id;
        let x = s2[k];
        assert(s2.contains(x));
        assert(s2.to_multiset().count(x) > 0);
        if x != n {
            assert(s1.to_multiset().count(x) > 0);
            assert(s1.contains(x));
            let k2 = choose|k2: int| 0 <= k2 < s1.len() && s1[k2] == x;
            assert((#[trigger] s1[k2]).id_spec() == id);
        }
    }
}

/// Some contact of the table carries this id, has been heard from (its
/// `last_request_received` timestamp is set), and is no longer merely
/// questionable: a questionable contact is promoted to good on contact.
pub open spec fn stamped_contact(t: RoutingTable, id: Seq<u8>) -> bool {
    exists|k: int|
        0 <= k < t.all_nodes().len() && (#[trigger] t.all_nodes()[k]).id_spec() == id
            && t.all_nodes()[k].last_request_received is Some && t.all_nodes()[k].state
            != NodeState::Questionable
}

/// What recording a caller leaves behind: the table is still well-formed,
/// its identity and secrets are untouched, no contact appears out of thin
/// air except the caller, a caller already known stays known, and either
/// the caller got recorded or the set of known ids did not move at all
/// (the soft-failing full bucket).
pub open spec fn records_caller(pre: RoutingTable, post: RoutingTable, id: Seq<u8>) -> bool {
    &&& post.wf()
    &&& post.local_id == pre.local_id
    &&& post.token_secret@ == pre.token_secret@
    &&& post.token_secret_previous@ == pre.token_secret_previous@
    &&& (forall|x: Seq<u8>| #[trigger] post.contains_id(x) ==> pre.contains_id(x) || x == id)
    &&& (pre.contains_id(id) ==> post.contains_id(id))
    &&& (post.contains_id(id) || (forall|x: Seq<u8>|
        #[trigger] post.contains_id(x) <==> pre.contains_id(x)))
    &&& (pre.total() < K ==> post.contains_id(id))
    &&& (post.contains_id(id) ==> stamped_contact(post, id))
}

impl RoutingTable {
    /// Records a query's sender as a contact: inserts it if it is new
    /// (best effort: a full bucket makes this a no-op) and stamps it as
    /// recently heard from. A read-only sender is not recorded at all.
    /// This always reports success, as the protocol asks.
    pub fn record_request(&mut self, id: &NodeId, addr: PeerAddr, read_only: bool) -> (r: Result<
        (),
        ErrorKind,
    >)
        requires
            old(self).wf(),
        ensures
            final(self).wf(),
            r is Ok,
            read_only ==> *final(self) == *old(self),
            !read_only ==> records_caller(*old(self), *final(self), id@),
    {
        proof {
            broadcast use vstd::seq_lib::group_to_multiset_ensures;
            broadcast use vstd::multiset::group_multiset_axioms;

        }
        if read_only {
            return Ok(());
        }
        let ghost pre = *self;
        let res = self.get_or_add(id, addr);
        let ghost mid = *self;
        match res {
            Result::Ok(()) => {
                self.mark_request_from(id);
            },
            Result::Err(_) => {
                proof {
                    lemma_has_id_congruence(pre.all_nodes(), self.all_nodes());
                }
            },
        }
        Ok(())
    }
}

/// True exactly when two byte vectors hold the same bytes.
fn bytes_eq(a: &Vec<u8>, b: &Vec<u8>) -> (r: bool)
    ensures
        r == (a@ == b@),
{
    if a.len() != b.len() {
        return false;
    }
    let mut i: usize = 0;
    while i < a.len()
        invariant
            i <= a@.len(),
            a@.len() == b@.len(),
            forall|j: int| 0 <= j < i ==> a@[j] == b@[j],
        decreases a@.len() - i,
    {
        if a[i] != b[i] {
            assert(a@[i as int] != b@[i as int]);
            return false;
        }
        i = i + 1;
    }
    assert(a@ =~= b@);
    true
}

} // verus!
