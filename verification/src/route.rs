//! Choice of one node per layer, and the route that the chosen nodes give.

use vstd::prelude::*;
use vstd::utf8::encode_utf8;
use rand::seq::SliceRandom;
use crate::address::{encode_address, encoded_address, CodecError};
use crate::key::{decode_public_key, decoded_key};
use crate::topology::{law_bucket_holds_its_layer, LayeredTopology, MixNodePresence};

verus! {

/// One hop of a route in the form that the packet format asks for.
#[derive(Clone, Copy, Debug)]
pub struct RoutingNode {
    pub address: [u8; 32],
    pub public_key: [u8; 32],
}

/// The hops of a packet, in the order in which it passes them.
#[derive(Debug)]
pub struct Route {
    pub hops: Vec<RoutingNode>,
}

/// A chosen node could not be brought into its binary form.
#[derive(Clone, Copy, Debug, PartialEq, Eq, Structural)]
pub struct RouteBuildError {
    pub cause: CodecError,
}

/// The address field and the key field that a node record gives, or the
/// reason why it gives none. The address is looked at first.
pub open spec fn routing_fields(node: MixNodePresence) -> Result<(Seq<u8>, Seq<u8>), CodecError> {
    match encoded_address(encode_utf8(node.host@)) {
        Err(e) => Err(e),
        Ok(address) => match decoded_key(node.pub_key@) {
            Err(e) => Err(e),
            Ok(key) => Ok((address, key)),
        },
    }
}

/// `hop` holds the fields of `node`.
pub open spec fn hop_of(hop: RoutingNode, node: MixNodePresence) -> bool {
    routing_fields(node) == Ok::<(Seq<u8>, Seq<u8>), CodecError>((hop.address@, hop.public_key@))
}

/// `picks` names one node of each layer, by its position in the topology.
pub open spec fn picks_one_per_layer(layered: LayeredTopology, picks: Seq<usize>) -> bool {
    &&& picks.len() == layered.layers@.len()
    &&& forall|k: int| 0 <= k < picks.len() ==> layered.bucket(k).contains(#[trigger] picks[k])
}

/// The record of the node picked for layer `k + 1`.
pub open spec fn picked(layered: LayeredTopology, picks: Seq<usize>, k: int) -> MixNodePresence {
    layered.nodes@[picks[k] as int]
}

/// `r` is what the picked nodes give: a route with one hop per layer, in
/// increasing layer order, where every picked node converts; else the error of
/// the lowest layer whose node does not.
pub open spec fn outcome_of_picks(
    layered: LayeredTopology,
    picks: Seq<usize>,
    r: Result<Route, RouteBuildError>,
) -> bool {
    match r {
        Ok(route) => {
            &&& route.hops@.len() == picks.len()
            &&& forall|k: int|
                0 <= k < picks.len() ==> hop_of(#[trigger] route.hops@[k], picked(layered, picks, k))
        },
        Err(e) => exists|k: int|
            {
                &&& 0 <= k < picks.len()
                &&& #[trigger] routing_fields(picked(layered, picks, k)) == Err::<
                    (Seq<u8>, Seq<u8>),
                    CodecError,
                >(e.cause)
                &&& forall|j: int|
                    0 <= j < k ==> (#[trigger] routing_fields(picked(layered, picks, j))) is Ok
            },
    }
}

/// Calls `choose` of rand's `SliceRandom` on the bucket, with the thread's
/// generator. The contract states what the method's source shows of every
/// draw: nothing comes back exactly from an empty bucket, and what comes back
/// is one of the bucket's entries.
#[verifier::external_body]
fn choose_from(bucket: &Vec<usize>) -> (r: Option<usize>)
    ensures
        r is None <==> bucket@.len() == 0,
        r is Some ==> bucket@.contains(r.unwrap()),
{
    bucket.choose(&mut rand::thread_rng()).copied()
}

/// Brings one node record into the form of a hop.
pub fn routing_node(node: &MixNodePresence) -> (r: Result<RoutingNode, RouteBuildError>)
    ensures
        match routing_fields(*node) {
            Ok(fields) => r is Ok && hop_of(r.unwrap(), *node),
            Err(e) => r == Err::<RoutingNode, RouteBuildError>(RouteBuildError { cause: e }),
        },
{
    let address = match encode_address(node.host.as_str()) {
        Ok(bytes) => bytes,
        Err(e) => {
            return Err(RouteBuildError { cause: e });
        },
    };
    let public_key = match decode_public_key(node.pub_key.as_str()) {
        Ok(bytes) => bytes,
        Err(e) => {
            return Err(RouteBuildError { cause: e });
        },
    };
    Ok(RoutingNode { address, public_key })
}

/// Builds the route through the nodes that `picks` names, one per layer.
///
/// The hops stand in increasing layer order. Where a picked node does not
/// convert, nothing replaces it: the error of the lowest such layer comes back.
pub fn select_route_with(layered: &LayeredTopology, picks: &Vec<usize>) -> (r: Result<
    Route,
    RouteBuildError,
>)
    requires
        layered.wf(),
        picks_one_per_layer(*layered, picks@),
    ensures
        outcome_of_picks(*layered, picks@, r),
        r is Ok <==> forall|k: int|
            0 <= k < picks@.len() ==> (#[trigger] routing_fields(picked(*layered, picks@, k))) is Ok,
{
    let mut hops: Vec<RoutingNode> = Vec::new();
    let mut k: usize = 0;
    while k < picks.len()
        invariant
            layered.wf(),
            picks_one_per_layer(*layered, picks@),
            k <= picks@.len(),
            hops@.len() == k,
            forall|j: int| 0 <= j < k ==> hop_of(#[trigger] hops@[j], picked(*layered, picks@, j)),
            forall|j: int|
                0 <= j < k ==> (#[trigger] routing_fields(picked(*layered, picks@, j))) is Ok,
        decreases picks@.len() - k,
    {
        let position: usize = picks[k];
        proof {
            assert(layered.bucket(k as int).contains(picks@[k as int]));
        }
        match routing_node(&layered.nodes[position]) {
            Ok(hop) => {
                hops.push(hop);
            },
            Err(e) => {
                proof {
                    assert(routing_fields(picked(*layered, picks@, k as int)) == Err::<
                        (Seq<u8>, Seq<u8>),
                        CodecError,
                    >(e.cause));
                }
                return Err(e);
            },
        }
        k += 1;
    }
    Ok(Route { hops })
}

/// Selects a route: for each layer in increasing order one of its nodes, each
/// drawn at random and independently of the others.
///
/// Whatever is drawn, the outcome is the one that `select_route_with` gives
/// for some choice of one node per layer; so a route has one hop per layer, and
/// hop `k` belongs to a node of layer `k + 1`. Where every node of the topology
/// converts, a route comes back.
pub fn select_route(layered: &LayeredTopology) -> (r: Result<Route, RouteBuildError>)
    requires
        layered.wf(),
    ensures
        exists|picks: Seq<usize>| #[trigger]
            picks_one_per_layer(*layered, picks) && outcome_of_picks(*layered, picks, r),
        r is Ok ==> r.unwrap().hops@.len() == layered.layers@.len(),
        (forall|i: int|
            0 <= i < layered.nodes@.len() ==> (#[trigger] routing_fields(layered.nodes@[i])) is Ok)
            ==> r is Ok,
{
    let mut picks: Vec<usize> = Vec::new();
    let mut k: usize = 0;
    while k < layered.layers.len()
        invariant
            layered.wf(),
            k <= layered.layers@.len(),
            picks@.len() == k,
            forall|j: int| 0 <= j < k ==> layered.bucket(j).contains(#[trigger] picks@[j]),
        decreases layered.layers@.len() - k,
    {
        let drawn = choose_from(&layered.layers[k]);
        picks.push(drawn.unwrap());
        k += 1;
    }
    let r = select_route_with(layered, &picks);
    proof {
        assert(picks_one_per_layer(*layered, picks@));
        assert forall|j: int| 0 <= j < picks@.len() implies picks@[j] < layered.nodes@.len() by {
            assert(layered.bucket(j).contains(picks@[j]));
        }
    }
    r
}

/// A route built from one pick per layer has one hop per layer, and the hops
/// stand in strictly increasing layer order: hop `k` holds the fields of a
/// node of layer `k + 1`.
pub proof fn law_route_follows_layers(layered: LayeredTopology, picks: Seq<usize>, route: Route)
    requires
        layered.wf(),
        picks_one_per_layer(layered, picks),
        outcome_of_picks(layered, picks, Ok(route)),
    ensures
        route.hops@.len() == layered.layers@.len(),
        forall|k: int|
            0 <= k < route.hops@.len() ==> picked(layered, picks, k).layer == k + 1 && hop_of(
                #[trigger] route.hops@[k],
                picked(layered, picks, k),
            ),
{
    assert forall|k: int| 0 <= k < route.hops@.len() implies picked(layered, picks, k).layer == k
        + 1 by {
        assert(layered.bucket(k).contains(picks[k]));
        law_bucket_holds_its_layer(layered, k, picks[k]);
    }
}

/// The final recipient of a packet.
#[derive(Clone, Copy, Debug)]
pub struct Destination {
    pub address: [u8; 32],
    pub identifier: [u8; 16],
}

/// The fixed destination that every packet is built for.
pub fn get_destination() -> (d: Destination)
    ensures
        d.address@ == Seq::new(32, |i: int| 42u8),
        d.identifier@ == Seq::new(16, |i: int| 1u8),
{
    let d = Destination { address: [42u8;32], identifier: [1u8;16] };
    assert(d.address@ =~= Seq::new(32, |i: int| 42u8));
    assert(d.identifier@ =~= Seq::new(16, |i: int| 1u8));
    d
}

} // verus!
