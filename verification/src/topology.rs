//! Grouping of the advertised mix nodes into layers.

use vstd::prelude::*;
use vstd::set_lib::{lemma_int_range, lemma_len_subset, lemma_map_size_bound, set_int_range};

verus! {

/// One advertised mix node.
#[derive(Clone, Debug)]
pub struct MixNodePresence {
    /// Where the node listens, as `ip:port`.
    pub host: String,
    /// The node's public key in URL-safe base64.
    pub pub_key: String,
    /// The position of the node in a path, counted from 1.
    pub layer: u64,
}

/// The mix nodes advertised at one point in time.
#[derive(Clone, Debug)]
pub struct Topology {
    pub mix_nodes: Vec<MixNodePresence>,
}

/// The layers of a topology are not `1, 2, .., N` without a gap.
#[derive(Clone, Copy, Debug, PartialEq, Eq, Structural)]
pub struct TopologyIntegrityError {}

/// Some node of `nodes` stands in layer `layer`.
pub open spec fn layer_inhabited(nodes: Seq<MixNodePresence>, layer: int) -> bool {
    exists|i: int| 0 <= i < nodes.len() && (#[trigger] nodes[i]).layer == layer
}

/// The layers of `nodes` are exactly `1, .., n`: every node stands in one of
/// them and each of them holds a node.
pub open spec fn spans_layers(nodes: Seq<MixNodePresence>, n: int) -> bool {
    &&& 0 <= n
    &&& forall|i: int| 0 <= i < nodes.len() ==> 1 <= (#[trigger] nodes[i]).layer <= n
    &&& forall|l: int| 1 <= l <= n ==> #[trigger] layer_inhabited(nodes, l)
}

/// The layers of `nodes` form a range that starts at 1 and has no gap.
pub open spec fn is_contiguous(nodes: Seq<MixNodePresence>) -> bool {
    exists|n: int| spans_layers(nodes, n)
}

/// `bucket` lists, in increasing order, the positions below `upto` of the
/// nodes that stand in layer `layer`.
pub open spec fn is_bucket_of(
    bucket: Seq<usize>,
    nodes: Seq<MixNodePresence>,
    layer: int,
    upto: int,
) -> bool {
    &&& forall|j: int|
        0 <= j < bucket.len() ==> (#[trigger] bucket[j]) < upto && bucket[j] < nodes.len()
            && nodes[bucket[j] as int].layer == layer
    &&& forall|j: int, k: int| 0 <= j < k < bucket.len() ==> bucket[j] < bucket[k]
    &&& forall|i: int|
        0 <= i < upto && i < nodes.len() && (#[trigger] nodes[i]).layer == layer
            ==> bucket.contains(i as usize)
}

/// A topology split into its layers.
///
/// `layers[k]` lists the positions in `nodes` of the nodes of layer `k + 1`,
/// in the order in which the topology gave them.
#[derive(Clone, Debug)]
pub struct LayeredTopology {
    pub nodes: Vec<MixNodePresence>,
    pub layers: Vec<Vec<usize>>,
}

impl LayeredTopology {
    /// The invariant: the layers are `1, .., N`, none is empty, and each
    /// bucket holds exactly the nodes of its layer in their given order.
    pub open spec fn wf(&self) -> bool {
        &&& spans_layers(self.nodes@, self.layers@.len() as int)
        &&& forall|k: int|
            0 <= k < self.layers@.len() ==> (#[trigger] self.layers@[k])@.len() > 0
                && is_bucket_of(self.layers@[k]@, self.nodes@, k + 1, self.nodes@.len() as int)
    }

    /// The positions of the nodes of layer `k + 1`.
    pub open spec fn bucket(&self, k: int) -> Seq<usize> {
        self.layers@[k]@
    }
}

/// The layer numbers that the nodes name.
pub open spec fn layers_seen(nodes: Seq<MixNodePresence>) -> Set<int> {
    set_int_range(0, nodes.len() as int).map(|i: int| nodes[i].layer as int)
}

/// There are at most as many inhabited layers as nodes.
proof fn lemma_layers_fit(nodes: Seq<MixNodePresence>, n: int)
    requires
        0 <= n,
        forall|l: int| 1 <= l <= n ==> #[trigger] layer_inhabited(nodes, l),
    ensures
        n <= nodes.len(),
{
    let positions = set_int_range(0, nodes.len() as int);
    let seen = layers_seen(nodes);
    lemma_int_range(0, nodes.len() as int);
    lemma_map_size_bound(positions, seen, |i: int| nodes[i].layer as int);
    let wanted = set_int_range(1, n + 1);
    lemma_int_range(1, n + 1);
    assert forall|l: int| wanted.contains(l) implies seen.contains(l) by {
        assert(layer_inhabited(nodes, l));
        let i = choose|i: int| 0 <= i < nodes.len() && (#[trigger] nodes[i]).layer == l;
        assert(positions.contains(i));
    }
    lemma_len_subset(wanted, seen);
}

/// Collects the positions of the nodes that stand in `layer`.
fn collect_layer(nodes: &Vec<MixNodePresence>, layer: u64) -> (bucket: Vec<usize>)
    ensures
        is_bucket_of(bucket@, nodes@, layer as int, nodes@.len() as int),
{
    let mut bucket: Vec<usize> = Vec::new();
    let mut i: usize = 0;
    while i < nodes.len()
        invariant
            i <= nodes@.len(),
            is_bucket_of(bucket@, nodes@, layer as int, i as int),
        decreases nodes@.len() - i,
    {
        if nodes[i].layer == layer {
            let ghost before = bucket@;
            bucket.push(i);
            proof {
                assert forall|m: int|
                    0 <= m < i + 1 && m < nodes@.len() && (#[trigger] nodes@[m]).layer
                        == layer implies bucket@.contains(m as usize) by {
                    if m < i {
                        assert(before.contains(m as usize));
                        let j = choose|j: int| 0 <= j < before.len() && before[j] == m as usize;
                        assert(bucket@[j] == m as usize);
                    } else {
                        assert(bucket@[bucket@.len() - 1] == m as usize);
                    }
                }
            }
        }
        i += 1;
    }
    bucket
}

/// Splits a topology into its layers.
///
/// Succeeds exactly when the layers named by the nodes are `1, .., N` with no
/// gap; a topology without nodes has no layers. The buckets keep the nodes in
/// the order in which the topology lists them.
pub fn build(topology: Topology) -> (r: Result<LayeredTopology, TopologyIntegrityError>)
    ensures
        r is Ok <==> is_contiguous(topology.mix_nodes@),
        r is Ok ==> r.unwrap().wf() && r.unwrap().nodes@ == topology.mix_nodes@,
{
    let nodes = topology.mix_nodes;
    let len: usize = nodes.len();
    let mut layers: Vec<Vec<usize>> = Vec::new();
    let mut stopped = false;
    while layers.len() < len && !stopped
        invariant
            nodes@ == topology.mix_nodes@,
            len == nodes@.len(),
            layers@.len() <= len,
            stopped ==> !layer_inhabited(nodes@, layers@.len() as int + 1),
            forall|k: int|
                0 <= k < layers@.len() ==> (#[trigger] layers@[k])@.len() > 0 && is_bucket_of(
                    layers@[k]@,
                    nodes@,
                    k + 1,
                    len as int,
                ),
        decreases len - layers@.len() + (if stopped { 0int } else { 1int }),
    {
        let layer: u64 = (layers.len() + 1) as u64;
        let bucket = collect_layer(&nodes, layer);
        if bucket.len() == 0 {
            stopped = true;
            proof {
                if layer_inhabited(nodes@, layers@.len() as int + 1) {
                    let i = choose|i: int|
                        0 <= i < nodes@.len() && (#[trigger] nodes@[i]).layer == layers@.len() + 1;
                    assert(bucket@.contains(i as usize));
                }
            }
        } else {
            layers.push(bucket);
        }
    }
    let count: usize = layers.len();
    let mut i: usize = 0;
    while i < len
        invariant
            nodes@ == topology.mix_nodes@,
            i <= len == nodes@.len(),
            count == layers@.len() <= len,
            stopped ==> !layer_inhabited(nodes@, count + 1),
            !stopped ==> count == len,
            forall|m: int| 0 <= m < i ==> 1 <= (#[trigger] nodes@[m]).layer <= count,
        decreases len - i,
    {
        let layer: u64 = nodes[i].layer;
        if layer < 1 || layer > count as u64 {
            proof {
                if is_contiguous(nodes@) {
                    let n = choose|n: int| spans_layers(nodes@, n);
                    assert(1 <= nodes@[i as int].layer <= n);
                    lemma_layers_fit(nodes@, n);
                    assert(layer_inhabited(nodes@, count + 1));
                }
            }
            return Err(TopologyIntegrityError {});
        }
        i += 1;
    }
    proof {
        assert forall|l: int| 1 <= l <= count implies #[trigger] layer_inhabited(nodes@, l) by {
            let b = layers@[l - 1]@;
            assert(b[0] < nodes@.len());
            assert(nodes@[b[0] as int].layer == l);
        }
        assert(spans_layers(nodes@, count as int));
    }
    Ok(LayeredTopology { nodes, layers })
}

/// A layer without a node below the layer of some node is a gap, and a
/// topology with a gap is not contiguous.
pub proof fn law_gap_breaks_contiguity(nodes: Seq<MixNodePresence>, gap: int, i: int)
    requires
        1 <= gap,
        !layer_inhabited(nodes, gap),
        0 <= i < nodes.len(),
        nodes[i].layer > gap,
    ensures
        !is_contiguous(nodes),
{
    if is_contiguous(nodes) {
        let n = choose|n: int| spans_layers(nodes, n);
        assert(1 <= nodes[i].layer <= n);
        assert(layer_inhabited(nodes, gap));
    }
}

/// Layers are counted from 1: a node in layer 0 breaks the topology.
pub proof fn law_layer_zero_breaks_contiguity(nodes: Seq<MixNodePresence>, i: int)
    requires
        0 <= i < nodes.len(),
        nodes[i].layer == 0,
    ensures
        !is_contiguous(nodes),
{
    if is_contiguous(nodes) {
        let n = choose|n: int| spans_layers(nodes, n);
        assert(1 <= nodes[i].layer <= n);
    }
}

/// The number of layers of a contiguous topology is determined by its nodes.
pub proof fn law_layer_count_unique(nodes: Seq<MixNodePresence>, n: int, m: int)
    requires
        spans_layers(nodes, n),
        spans_layers(nodes, m),
    ensures
        n == m,
{
    if n < m {
        assert(layer_inhabited(nodes, n + 1));
    } else if m < n {
        assert(layer_inhabited(nodes, m + 1));
    }
}

/// The number of layers of a contiguous topology is the number of distinct
/// layer values that its nodes name, and those values are `1, .., n`.
pub proof fn law_layer_count_is_distinct_layers(nodes: Seq<MixNodePresence>, n: int)
    requires
        spans_layers(nodes, n),
    ensures
        layers_seen(nodes) == set_int_range(1, n + 1),
        layers_seen(nodes).finite(),
        layers_seen(nodes).len() == n,
        n <= nodes.len(),
{
    let positions = set_int_range(0, nodes.len() as int);
    let seen = layers_seen(nodes);
    assert forall|l: int| set_int_range(1, n + 1).contains(l) implies seen.contains(l) by {
        assert(layer_inhabited(nodes, l));
        let i = choose|i: int| 0 <= i < nodes.len() && (#[trigger] nodes[i]).layer == l;
        assert(positions.contains(i));
    }
    assert forall|l: int| seen.contains(l) implies set_int_range(1, n + 1).contains(l) by {
        let i = choose|i: int| positions.contains(i) && nodes[i].layer as int == l;
        assert(1 <= nodes[i].layer <= n);
    }
    assert(seen =~= set_int_range(1, n + 1));
    lemma_int_range(1, n + 1);
    lemma_layers_fit(nodes, n);
}

/// In a well-formed layered topology every entry of bucket `k` is the position
/// of a node of layer `k + 1`.
pub proof fn law_bucket_holds_its_layer(layered: LayeredTopology, k: int, position: usize)
    requires
        layered.wf(),
        0 <= k < layered.layers@.len(),
        layered.bucket(k).contains(position),
    ensures
        position < layered.nodes@.len(),
        layered.nodes@[position as int].layer == k + 1,
{
    let bucket = layered.layers@[k]@;
    let j = choose|j: int| 0 <= j < bucket.len() && bucket[j] == position;
    assert(bucket[j] < layered.nodes@.len());
}

impl LayeredTopology {
    /// The number of layers.
    pub fn num_layers(&self) -> (n: usize)
        ensures
            n == self.layers@.len(),
    {
        self.layers.len()
    }

    /// The number of nodes in layer `k + 1`.
    pub fn layer_len(&self, k: usize) -> (n: usize)
        requires
            k < self.layers@.len(),
        ensures
            n == self.bucket(k as int).len(),
    {
        self.layers[k].len()
    }

    /// The node that stands at place `j` of layer `k + 1`.
    pub fn node_at(&self, k: usize, j: usize) -> (node: &MixNodePresence)
        requires
            self.wf(),
            k < self.layers@.len(),
            j < self.bucket(k as int).len(),
        ensures
            *node == self.nodes@[self.bucket(k as int)[j as int] as int],
            node.layer == k + 1,
    {
        let position: usize = self.layers[k][j];
        &self.nodes[position]
    }
}

} // verus!
