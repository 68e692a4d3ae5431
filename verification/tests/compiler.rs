use wg_peer_adapter::orchestrator::create_peer;
use wg_peer_adapter::orchestrator::delete_request;
use wg_peer_adapter::orchestrator::inspect_request;
use wg_peer_adapter::schemas::NewPeerIntent;

fn intent(psk: Option<String>) -> NewPeerIntent {
    NewPeerIntent {
        firstname: "AB".to_string(),
        lastname: "CD".to_string(),
        device_id: "phone1".to_string(),
        public_key: format!("{}=", "A".repeat(43)),
        psk,
        tunnel_ipv4: "10.0.0.5".to_string(),
        tunnel_ipv6: "fd00::5".to_string(),
    }
}

#[test]
fn create_transaction_lines_without_psk() {
    let (id, txn) = create_peer("wg100", &intent(None)).ok().expect("valid intent");
    assert_eq!(id, "AB-CD-phone1");
    let expected: Vec<String> = vec![
        "source /opt/vyatta/etc/functions/script-template".to_string(),
        "set firewall group address-group VPN-AB-CD address '10.0.0.5'".to_string(),
        "set firewall group ipv6-address-group VPN-AB-CD-6 address 'fd00::5'".to_string(),
        "set interfaces wireguard wg100 peer AB-CD-phone1 allowed-ips '10.0.0.5/32'".to_string(),
        "set interfaces wireguard wg100 peer AB-CD-phone1 allowed-ips 'fd00::5/128'".to_string(),
        format!("set interfaces wireguard wg100 peer AB-CD-phone1 pubkey '{}='", "A".repeat(43)),
        "commit;save;exit".to_string(),
    ];
    assert_eq!(txn.lines, expected);
    let lines: Vec<&str> = txn.lines.iter().map(|l| l.as_str()).collect();
    // Exactly one pubkey line, two allowed-ips lines, no preshared-key line.
    assert_eq!(lines.iter().filter(|l| l.contains(" pubkey ")).count(), 1);
    assert_eq!(lines.iter().filter(|l| l.contains(" allowed-ips ")).count(), 2);
    assert_eq!(lines.iter().filter(|l| l.contains("/32'")).count(), 1);
    assert_eq!(lines.iter().filter(|l| l.contains("/128'")).count(), 1);
    assert_eq!(lines.iter().filter(|l| l.contains("preshared-key")).count(), 0);
}

#[test]
fn preshared_key_adds_exactly_one_line() {
    let psk = format!("{}w=", "a".repeat(42));
    let (_, bare) = create_peer("wg100", &intent(None)).ok().expect("valid intent");
    let (_, with) = create_peer("wg100", &intent(Some(psk.clone()))).ok().expect("valid intent");
    assert_eq!(with.lines.len(), bare.lines.len() + 1);
    // The new line stands just before the commit line; nothing else moves.
    assert_eq!(with.lines[..6], bare.lines[..6]);
    assert_eq!(
        with.lines[6],
        format!("set interfaces wireguard wg100 peer AB-CD-phone1 preshared-key '{psk}';")
    );
    assert_eq!(with.lines[7], bare.lines[6]);
}

#[test]
fn inspect_transaction_lines() {
    let txn = inspect_request("wg100", "AB-CD-phone1").ok().expect("valid identifier");
    let lines: Vec<&str> = txn.lines.iter().map(|l| l.as_str()).collect();
    assert_eq!(
        lines,
        vec![
            "source /opt/vyatta/etc/functions/script-template",
            "run show configuration commands | match 'interfaces wireguard wg100 peer AB-CD-phone1'",
            "exit",
        ]
    );
}

#[test]
fn delete_transaction_doubles_owner_token() {
    let output =
        b"set interfaces wireguard wg100 peer AB-CD-phone1 allowed-ips '10.0.0.5/32'\n\
          set interfaces wireguard wg100 peer AB-CD-phone1 allowed-ips 'fd00::5/128'\n";
    let txn = delete_request("wg100", "AB-CD-phone1", output).ok().expect("valid identifier");
    let lines: Vec<&str> = txn.lines.iter().map(|l| l.as_str()).collect();
    assert_eq!(
        lines,
        vec![
            "source /opt/vyatta/etc/functions/script-template",
            "delete interface wireguard wg100 peer AB-CD-phone1",
            "delete firewall group address-group VPN-AB-AB address 10.0.0.5",
            "delete firewall group ipv6-address-group VPN-AB-AB-6 address fd00::5",
            "commit;save;exit",
        ]
    );
}

#[test]
fn transaction_text_joins_lines_with_newlines() {
    let txn = inspect_request("wg100", "AB-CD-phone1").ok().expect("valid identifier");
    let text = txn.text();
    assert_eq!(
        text,
        "source /opt/vyatta/etc/functions/script-template\n\
         run show configuration commands | match 'interfaces wireguard wg100 peer AB-CD-phone1'\n\
         exit"
    );
}
