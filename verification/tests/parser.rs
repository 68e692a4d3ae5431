use wg_peer_adapter::extract_addresses;
use wg_peer_adapter::infer_validity;
use wg_peer_adapter::orchestrator::inspect_result;

#[test]
fn validity_is_inferred_from_output_length() {
    assert!(!infer_validity(b""));
    assert!(!infer_validity(b"x"));
    assert!(infer_validity(b"xy"));
    assert!(infer_validity(b"set interfaces wireguard wg100 peer AB-CD-a pubkey 'k'\n"));
    assert!(!inspect_result(b"").valid);
    assert!(!inspect_result(b"\n").valid);
    assert!(inspect_result(b"ok\n").valid);
}

#[test]
fn eighth_field_quoted_cidr_is_extracted() {
    let out = b"set interfaces wireguard wg100 peer AB-CD-phone1 allowed-ips '10.0.0.5/32'\n";
    let (a4, a6) = extract_addresses(out);
    assert_eq!(a4, "10.0.0.5");
    assert_eq!(a6, "");

    let out = b"set interfaces wireguard wg100 peer AB-CD-phone1 allowed-ips 'fd00::5/128'\n";
    let (a4, a6) = extract_addresses(out);
    assert_eq!(a4, "");
    assert_eq!(a6, "fd00::5");
}

#[test]
fn both_families_are_collected_across_lines() {
    let out = b"set interfaces wireguard wg100 peer AB-CD-phone1 allowed-ips '10.0.0.5/32'\n\
                set interfaces wireguard wg100 peer AB-CD-phone1 allowed-ips 'fd00::5/128'\n";
    let (a4, a6) = extract_addresses(out);
    assert_eq!(a4, "10.0.0.5");
    assert_eq!(a6, "fd00::5");
}

#[test]
fn short_lines_change_nothing() {
    // Seven fields: one short of a candidate allowed-ips line.
    let out = b"set interfaces wireguard wg100 peer AB-CD-phone1 allowed-ips\n";
    let (a4, a6) = extract_addresses(out);
    assert_eq!(a4, "");
    assert_eq!(a6, "");
}

#[test]
fn unquoted_or_malformed_candidates_are_skipped() {
    // Unquoted eighth field: the quoting expectation fails, the line is
    // skipped rather than aborting the parse.
    let out = b"set interfaces wireguard wg100 peer AB-CD-phone1 allowed-ips 10.0.0.5/32\n";
    let (a4, _) = extract_addresses(out);
    assert_eq!(a4, "");
    // Quoted but not an address: logged and skipped, never an error.
    let out = b"set interfaces wireguard wg100 peer AB-CD-phone1 allowed-ips 'nonsense/32'\n";
    let (a4, a6) = extract_addresses(out);
    assert_eq!(a4, "");
    assert_eq!(a6, "");
}

#[test]
fn later_lines_overwrite_earlier_ones() {
    let out = b"a b c d e f g '10.0.0.5/32'\n\
                a b c d e f g '10.0.0.9/32'\n";
    let (a4, _) = extract_addresses(out);
    assert_eq!(a4, "10.0.0.9");
}

#[test]
fn extra_fields_and_whitespace_are_tolerated() {
    let out = b"  a\tb   c d e f g '10.0.0.5/32' trailing junk\n\nnoise\n";
    let (a4, a6) = extract_addresses(out);
    assert_eq!(a4, "10.0.0.5");
    assert_eq!(a6, "");
}

#[test]
fn address_without_netmask_is_still_taken() {
    let out = b"a b c d e f g '10.0.0.5'\n";
    let (a4, _) = extract_addresses(out);
    assert_eq!(a4, "10.0.0.5");
}
