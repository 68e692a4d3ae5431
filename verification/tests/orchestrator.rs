use wg_peer_adapter::orchestrator::create_peer;
use wg_peer_adapter::orchestrator::delete_query_request;
use wg_peer_adapter::orchestrator::delete_request;
use wg_peer_adapter::orchestrator::inspect_request;
use wg_peer_adapter::schemas::NewPeerIntent;

fn jane_intent(firstname: &str, lastname: &str) -> NewPeerIntent {
    NewPeerIntent {
        firstname: firstname.to_string(),
        lastname: lastname.to_string(),
        device_id: "laptop1".to_string(),
        public_key: format!("{}=", "A".repeat(43)),
        psk: None,
        tunnel_ipv4: "10.0.0.5".to_string(),
        tunnel_ipv6: "fd00::5".to_string(),
    }
}

#[test]
fn inspect_rejects_malformed_identifier() {
    assert!(inspect_request("wg100", "AB-CD-phone1").is_ok());
    assert!(inspect_request("wg100", "bad identifier").is_err());
    assert!(inspect_request("wg100", "").is_err());
}

#[test]
fn delete_twice_for_absent_peer_still_compiles() {
    // An absent peer answers the address query with (almost) nothing. The
    // validation layer must not error, and a well-formed no-op delete
    // transaction must still come out — both times.
    for _ in 0..2 {
        let txn = delete_query_request("wg100", "AB-CD-phone1").ok().expect("valid identifier");
        assert_eq!(txn.lines.len(), 3);
        let txn = delete_request("wg100", "AB-CD-phone1", b"").ok().expect("valid identifier");
        let lines: Vec<&str> = txn.lines.iter().map(|l| l.as_str()).collect();
        assert_eq!(
            lines,
            vec![
                "source /opt/vyatta/etc/functions/script-template",
                "delete interface wireguard wg100 peer AB-CD-phone1",
                "delete firewall group address-group VPN-AB-AB address ",
                "delete firewall group ipv6-address-group VPN-AB-AB-6 address ",
                "commit;save;exit",
            ]
        );
    }
}

#[test]
fn delete_rejects_malformed_identifier() {
    assert!(delete_request("wg100", "AB;CD-phone1", b"").is_err());
    assert!(delete_query_request("wg100", "AB;CD-phone1").is_err());
}

#[test]
fn mixed_case_names_take_the_problems_path() {
    // `Jane-Doe-laptop1` does not pass the identifier grammar, so the
    // accumulated-problems path is taken and no transaction is compiled.
    let r = create_peer("wg100", &jane_intent("Jane", "Doe"));
    let problems = r.err().expect("mixed-case names fail validation");
    let messages: Vec<&str> = problems.iter().map(|p| p.message.as_str()).collect();
    assert_eq!(
        messages,
        vec![
            "Invalid value for parameter firstname",
            "Invalid value for parameter lastname",
            "Invalid value for derived identifier",
        ]
    );
    assert!(problems.iter().all(|p| !p.success));
}

#[test]
fn uppercase_names_create_the_peer() {
    let r = create_peer("wg100", &jane_intent("JANE", "DOE"));
    let (id, txn) = r.ok().expect("valid intent");
    assert_eq!(id, "JANE-DOE-laptop1");
    assert!(txn.lines.iter().any(|l| l.contains("peer JANE-DOE-laptop1 pubkey")));
}

#[test]
fn all_problems_are_reported_at_once() {
    let intent = NewPeerIntent {
        firstname: "jane".to_string(),
        lastname: "DOE".to_string(),
        device_id: "bad device".to_string(),
        public_key: "short".to_string(),
        psk: Some("also short".to_string()),
        tunnel_ipv4: "10.0.0.5".to_string(),
        tunnel_ipv6: "fd00::5".to_string(),
    };
    let problems = create_peer("wg100", &intent).err().expect("invalid intent");
    let messages: Vec<&str> = problems.iter().map(|p| p.message.as_str()).collect();
    assert_eq!(
        messages,
        vec![
            "Invalid value for parameter firstname",
            "Invalid value for parameter deviceId",
            "Invalid value for parameter publicKey",
            "Invalid value for parameter psk",
            "Invalid value for derived identifier",
        ]
    );
}

#[test]
fn psk_problems_are_validated_when_present() {
    let mut intent = jane_intent("JANE", "DOE");
    intent.psk = Some(format!("{}B=", "A".repeat(42)));
    let problems = create_peer("wg100", &intent).err().expect("psk fails validation");
    let messages: Vec<&str> = problems.iter().map(|p| p.message.as_str()).collect();
    assert_eq!(messages, vec!["Invalid value for parameter psk"]);
}
