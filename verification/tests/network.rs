use vecnod_core::network::{NetworkId, NetworkIdError, NetworkType, NetworkTypeError};

#[test]
fn test_network_id_parse_roundtrip() {
    for nt in NetworkType::iter() {
        let ni = NetworkId::new(nt);
        assert_eq!(nt, NetworkId::from_str(&ni.js_to_string()).unwrap().network_type());
        assert_eq!(ni, NetworkId::from_str(&ni.js_to_string()).unwrap());
    }
}

#[test]
fn test_network_id_parse() {
    struct Test {
        name: &'static str,
        expr: &'static str,
        expected: Result<NetworkId, NetworkIdError>,
    }

    let tests = vec![
        Test {
            name: "Valid mainnet",
            expr: "mainnet",
            expected: Ok(NetworkId::new(NetworkType::Mainnet)),
        },
        Test {
            name: "Valid testnet",
            expr: "testnet",
            expected: Ok(NetworkId::new(NetworkType::Testnet)),
        },
        Test {
            name: "Valid simnet",
            expr: "simnet",
            expected: Ok(NetworkId::new(NetworkType::Simnet)),
        },
        Test {
            name: "Missing network",
            expr: "",
            expected: Err(NetworkIdError::InvalidNetworkType(
                NetworkTypeError::InvalidNetworkType("".to_string()),
            )),
        },
        Test {
            name: "Invalid network",
            expr: "gamenet",
            expected: Err(NetworkIdError::InvalidNetworkType(
                NetworkTypeError::InvalidNetworkType("gamenet".to_string()),
            )),
        },
    ];

    for test in tests {
        match (NetworkId::from_str(test.expr), test.expected) {
            (Ok(got), Ok(expected)) => {
                assert_eq!(got, expected, "{}: unexpected result", test.name)
            },
            (Err(got), Err(expected)) => {
                assert_eq!(got, expected, "{}: unexpected error", test.name)
            },
            (got, _) => panic!("{}: unexpected result kind ok={}", test.name, got.is_ok()),
        }
    }
}

#[test]
fn network_ports_are_fixed_per_network() {
    assert_eq!(NetworkType::Mainnet.default_rpc_port(), 7110);
    assert_eq!(NetworkType::Testnet.default_borsh_rpc_port(), 8210);
    assert_eq!(NetworkType::Simnet.default_json_rpc_port(), 9310);
    assert_eq!(NetworkId::new(NetworkType::Mainnet).default_p2p_port(), 7111);
    assert!(NetworkId::new(NetworkType::Mainnet).is_mainnet());
    assert!(!NetworkId::new(NetworkType::Testnet).is_mainnet());
}

#[test]
fn network_prefixed_names_roundtrip() {
    let ni = NetworkId::new(NetworkType::Testnet);
    assert_eq!(ni.to_prefixed(), "vecno-testnet");
    assert_eq!(NetworkId::from_prefixed("vecno-testnet").unwrap(), ni);
    assert!(matches!(
        NetworkId::from_prefixed("testnet"),
        Err(NetworkIdError::InvalidPrefix(_))
    ));
    assert!(matches!(
        NetworkId::from_prefixed("vecno-gamenet"),
        Err(NetworkIdError::InvalidNetworkType(_))
    ));
    // parsing ignores ASCII case, as the lowercase canonical names
    assert_eq!(
        NetworkType::from_str("MainNet").unwrap(),
        NetworkType::Mainnet
    );
}
