use nym_client::address::CodecError;
use nym_client::route::{get_destination, routing_node, select_route, select_route_with, RouteBuildError};
use nym_client::topology::{build, LayeredTopology, MixNodePresence, Topology};

fn key_text(seed: u8) -> String {
    base64::encode_config(&[seed; 32], base64::URL_SAFE)
}

fn node(last_octet: u8, layer: u64) -> MixNodePresence {
    MixNodePresence {
        host: format!("10.0.{}.{}:1789", layer, last_octet),
        pub_key: key_text(last_octet),
        layer,
    }
}

fn grid(layers: u64, per_layer: u8) -> LayeredTopology {
    let mut mix_nodes = Vec::new();
    for i in 0..per_layer {
        for layer in 1..=layers {
            mix_nodes.push(node(i, layer));
        }
    }
    build(Topology { mix_nodes }).unwrap()
}

#[test]
fn routing_node_encodes_host_and_key() {
    let hop = routing_node(&node(7, 2)).unwrap();
    let mut address = [0u8; 32];
    address[0] = 10;
    address[2] = 2;
    address[3] = 7;
    address[4] = 0x06;
    address[5] = 0xfd;
    assert_eq!(hop.address, address);
    assert_eq!(hop.public_key, [7u8; 32]);
}

#[test]
fn routing_node_reports_the_address_before_the_key() {
    let both_bad = MixNodePresence { host: "nowhere".to_string(), pub_key: "$$$".to_string(), layer: 1 };
    assert_eq!(
        routing_node(&both_bad).unwrap_err(),
        RouteBuildError { cause: CodecError::AddressFormatError }
    );
    let bad_key = MixNodePresence { host: "1.2.3.4:5".to_string(), pub_key: "$$$".to_string(), layer: 1 };
    assert_eq!(routing_node(&bad_key).unwrap_err(), RouteBuildError { cause: CodecError::KeyDecodeError });
    let long_key = MixNodePresence {
        host: "1.2.3.4:5".to_string(),
        pub_key: base64::encode_config(&[1u8; 40], base64::URL_SAFE),
        layer: 1,
    };
    assert_eq!(routing_node(&long_key).unwrap_err(), RouteBuildError { cause: CodecError::KeyLengthError });
}

#[test]
fn select_route_with_follows_the_picks_in_layer_order() {
    let layered = grid(3, 5);
    // positions in the topology: node i of layer l stands at 3 * i + (l - 1)
    let route = select_route_with(&layered, &vec![6, 1, 14]).unwrap();
    assert_eq!(route.hops.len(), 3);
    assert_eq!(&route.hops[0].address[0..4], &[10u8, 0, 1, 2]);
    assert_eq!(&route.hops[1].address[0..4], &[10u8, 0, 2, 0]);
    assert_eq!(&route.hops[2].address[0..4], &[10u8, 0, 3, 4]);
    assert_eq!(route.hops[0].public_key, [2u8; 32]);
    assert_eq!(route.hops[1].public_key, [0u8; 32]);
    assert_eq!(route.hops[2].public_key, [4u8; 32]);
}

#[test]
fn select_route_with_stops_at_the_lowest_failing_layer() {
    let mix_nodes = vec![
        node(1, 1),
        MixNodePresence { host: "1.2.3.4:5".to_string(), pub_key: "%".to_string(), layer: 2 },
        MixNodePresence { host: "bad".to_string(), pub_key: key_text(1), layer: 3 },
    ];
    let layered = build(Topology { mix_nodes }).unwrap();
    assert_eq!(
        select_route_with(&layered, &vec![0, 1, 2]).unwrap_err(),
        RouteBuildError { cause: CodecError::KeyDecodeError }
    );
}

#[test]
fn select_route_has_one_hop_per_layer_in_layer_order() {
    let layered = grid(4, 3);
    for _ in 0..50 {
        let route = select_route(&layered).unwrap();
        assert_eq!(route.hops.len(), 4);
        for (k, hop) in route.hops.iter().enumerate() {
            assert_eq!(hop.address[2] as usize, k + 1);
            assert!(hop.address[3] < 3);
            assert_eq!(hop.public_key, [hop.address[3]; 32]);
        }
    }
}

#[test]
fn select_route_of_no_layers_is_empty() {
    let layered = build(Topology { mix_nodes: vec![] }).unwrap();
    assert_eq!(select_route(&layered).unwrap().hops.len(), 0);
}

#[test]
fn select_route_fails_where_the_chosen_node_does_not_convert() {
    let mix_nodes = vec![
        node(1, 1),
        MixNodePresence { host: "10.0.0.1".to_string(), pub_key: key_text(1), layer: 2 },
    ];
    let layered = build(Topology { mix_nodes }).unwrap();
    assert_eq!(
        select_route(&layered).unwrap_err(),
        RouteBuildError { cause: CodecError::AddressFormatError }
    );
}

#[test]
fn select_route_does_not_settle_on_one_node() {
    let layered = grid(3, 5);
    let mut counts = [[0usize; 5]; 3];
    for _ in 0..1000 {
        let route = select_route(&layered).unwrap();
        assert_eq!(route.hops.len(), 3);
        for (k, hop) in route.hops.iter().enumerate() {
            counts[k][hop.address[3] as usize] += 1;
        }
    }
    for layer in counts.iter() {
        assert_eq!(layer.iter().sum::<usize>(), 1000);
        assert!(layer.iter().all(|c| *c < 1000));
        assert!(layer.iter().filter(|c| **c > 0).count() >= 2);
    }
}

#[test]
fn destination_is_the_fixed_one() {
    let d = get_destination();
    assert_eq!(d.address, [42u8; 32]);
    assert_eq!(d.identifier, [1u8; 16]);
}
