//! The peer lifecycle façade: sequences validators, command compiler and
//! output parser for the inspect, create and delete operations.
//!
//! Running the compiled transactions is I/O and stays with the caller: it
//! executes each transaction against the configuration shell and hands the
//! captured output back to the interpretation half of the operation.

use crate::addr::is_ipv4_text;
use crate::addr::is_ipv6_text;
use crate::compiler::compile_create;
use crate::compiler::compile_delete;
use crate::compiler::compile_delete_query;
use crate::compiler::compile_inspect;
use crate::compiler::create_lines;
use crate::compiler::delete_lines;
use crate::compiler::delete_query_lines;
use crate::compiler::derive_identifier;
use crate::compiler::derived_id;
use crate::compiler::inspect_lines;
use crate::compiler::ConfigTransaction;
use crate::parser::chars_of;
use crate::parser::extract_addresses;
use crate::parser::extracted_addrs;
use crate::parser::infer_validity;
use crate::parser::lemma_ascii_roundtrip;
use crate::parser::lemma_scan_addrs_shape;
use crate::parser::spec_validity;
use crate::schemas::ApiResponse;
use crate::schemas::ApiResponseView;
use crate::schemas::IsValidResponse;
use crate::schemas::NewPeerIntent;
use crate::validators::valid_device_id;
use crate::validators::valid_identifier;
use crate::validators::valid_key;
use crate::validators::valid_name;
use crate::validators::validate_device_id;
use crate::validators::validate_identifier;
use crate::validators::validate_key;
use crate::validators::validate_name;
use vstd::prelude::*;

verus! {

/// Error returned when a peer identifier fails the identifier grammar.
#[derive(Clone, Copy, Debug, PartialEq, Eq, Structural)]
pub struct InvalidIdentifier;

/// Prepares an inspect operation: validates the identifier and compiles
/// the read-only transaction that shows the peer's configuration.
pub fn inspect_request(interface: &str, identifier: &str) -> (r: Result<
    ConfigTransaction,
    InvalidIdentifier,
>)
    ensures
        r is Ok <==> valid_identifier(identifier@),
        r matches Ok(t) ==> t@ == inspect_lines(interface@, identifier@),
{
    if validate_identifier(identifier) {
        Ok(compile_inspect(interface, identifier))
    } else {
        Err(InvalidIdentifier)
    }
}

/// Interprets the output of an inspect transaction: the peer is reported
/// present exactly when the shell printed more than one byte.
pub fn inspect_result(output: &[u8]) -> (r: IsValidResponse)
    ensures
        r.valid == spec_validity(output@),
{
    IsValidResponse { valid: infer_validity(output) }
}

pub open spec fn problem_view(msg: Seq<char>) -> ApiResponseView {
    ApiResponseView { success: false, message: msg }
}

/// Whether a create intent passes every validation.
pub open spec fn create_ok(
    first: Seq<char>,
    last: Seq<char>,
    device: Seq<char>,
    key: Seq<char>,
    psk: Option<Seq<char>>,
) -> bool {
    &&& valid_name(first)
    &&& valid_name(last)
    &&& valid_device_id(device)
    &&& valid_key(key)
    &&& (psk matches Some(p) ==> valid_key(p))
    &&& valid_identifier(derived_id(first, last, device))
}

/// The problem list a create intent accumulates: one entry per failed
/// validation, in field order, so the caller sees every problem at once.
pub open spec fn create_problems(
    first: Seq<char>,
    last: Seq<char>,
    device: Seq<char>,
    key: Seq<char>,
    psk: Option<Seq<char>>,
) -> Seq<ApiResponseView> {
    (if !valid_name(first) {
        seq![problem_view("Invalid value for parameter firstname"@)]
    } else {
        Seq::<ApiResponseView>::empty()
    }) + (if !valid_name(last) {
        seq![problem_view("Invalid value for parameter lastname"@)]
    } else {
        Seq::<ApiResponseView>::empty()
    }) + (if !valid_device_id(device) {
        seq![problem_view("Invalid value for parameter deviceId"@)]
    } else {
        Seq::<ApiResponseView>::empty()
    }) + (if !valid_key(key) {
        seq![problem_view("Invalid value for parameter publicKey"@)]
    } else {
        Seq::<ApiResponseView>::empty()
    }) + (if psk matches Some(p) && !valid_key(p) {
        seq![problem_view("Invalid value for parameter psk"@)]
    } else {
        Seq::<ApiResponseView>::empty()
    }) + (if !valid_identifier(derived_id(first, last, device)) {
        seq![problem_view("Invalid value for derived identifier"@)]
    } else {
        Seq::<ApiResponseView>::empty()
    })
}

/// A create intent passes every validation exactly when it accumulates no
/// problem.
pub proof fn lemma_create_ok_no_problems(
    first: Seq<char>,
    last: Seq<char>,
    device: Seq<char>,
    key: Seq<char>,
    psk: Option<Seq<char>>,
)
    ensures
        create_ok(first, last, device, key, psk) <==> create_problems(
            first,
            last,
            device,
            key,
            psk,
        ).len() == 0,
{
}

fn problem(msg: &str) -> (r: ApiResponse)
    ensures
        r@ == problem_view(msg@),
{
    ApiResponse { success: false, message: String::from_str(msg) }
}

/// Prepares a create operation: validates every supplied value, derives
/// the peer identifier, and either compiles the create transaction or
/// returns the accumulated problems without any side effect. The tunnel
/// addresses were assigned by the caller and must be address literals.
pub fn create_peer(interface: &str, intent: &NewPeerIntent) -> (r: Result<
    (String, ConfigTransaction),
    Vec<ApiResponse>,
>)
    requires
        is_ipv4_text(intent.tunnel_ipv4@),
        is_ipv6_text(intent.tunnel_ipv6@),
    ensures
        r is Ok <==> create_ok(
            intent.firstname@,
            intent.lastname@,
            intent.device_id@,
            intent.public_key@,
            intent.psk.deep_view(),
        ),
        r matches Ok(p) ==> p.0@ == derived_id(intent.firstname@, intent.lastname@, intent.device_id@)
            && p.1@ == create_lines(
            interface@,
            intent.firstname@,
            intent.lastname@,
            intent.device_id@,
            intent.public_key@,
            intent.psk.deep_view(),
            intent.tunnel_ipv4@,
            intent.tunnel_ipv6@,
        ),
        r matches Err(e) ==> e.deep_view() == create_problems(
            intent.firstname@,
            intent.lastname@,
            intent.device_id@,
            intent.public_key@,
            intent.psk.deep_view(),
        ),
{
    let ghost gproblems = create_problems(
        intent.firstname@,
        intent.lastname@,
        intent.device_id@,
        intent.public_key@,
        intent.psk.deep_view(),
    );
    let mut problems: Vec<ApiResponse> = Vec::new();
    if !validate_name(intent.firstname.as_str()) {
        problems.push(problem("Invalid value for parameter firstname"));
    }
    if !validate_name(intent.lastname.as_str()) {
        problems.push(problem("Invalid value for parameter lastname"));
    }
    if !validate_device_id(intent.device_id.as_str()) {
        problems.push(problem("Invalid value for parameter deviceId"));
    }
    if validate_key(intent.public_key.as_str()).is_err() {
        problems.push(problem("Invalid value for parameter publicKey"));
    }
    match &intent.psk {
        Some(p) => {
            if validate_key(p.as_str()).is_err() {
                problems.push(problem("Invalid value for parameter psk"));
            }
        },
        None => {},
    }
    let id: String = derive_identifier(
        intent.firstname.as_str(),
        intent.lastname.as_str(),
        intent.device_id.as_str(),
    );
    if !validate_identifier(id.as_str()) {
        problems.push(problem("Invalid value for derived identifier"));
    }
    if problems.len() > 0 {
        proof {
            assert(problems.deep_view() =~~= gproblems);
        }
        return Err(problems);
    }
    proof {
        assert(problems.deep_view() =~~= gproblems);
    }
    let t: ConfigTransaction = compile_create(interface, intent);
    Ok((id, t))
}

/// Prepares the address-recovery step of a delete operation: validates the
/// identifier and compiles the read-only transaction that lists the peer's
/// allowed-ips, whose output the delete transaction needs.
pub fn delete_query_request(interface: &str, identifier: &str) -> (r: Result<
    ConfigTransaction,
    InvalidIdentifier,
>)
    ensures
        r is Ok <==> valid_identifier(identifier@),
        r matches Ok(t) ==> t@ == delete_query_lines(interface@, identifier@),
{
    if validate_identifier(identifier) {
        Ok(compile_delete_query(interface, identifier))
    } else {
        Err(InvalidIdentifier)
    }
}

/// Prepares a delete operation: recovers the peer's tunnel addresses from
/// the address-query output and compiles the delete transaction. A valid
/// identifier always yields a transaction, whatever the output looked
/// like; an absent peer merely leaves the address slots empty.
pub fn delete_request(interface: &str, identifier: &str, query_output: &[u8]) -> (r: Result<
    ConfigTransaction,
    InvalidIdentifier,
>)
    ensures
        r is Ok <==> valid_identifier(identifier@),
        r matches Ok(t) ==> t@ == delete_lines(
            interface@,
            identifier@,
            chars_of(extracted_addrs(query_output@).0),
            chars_of(extracted_addrs(query_output@).1),
        ),
{
    if !validate_identifier(identifier) {
        return Err(InvalidIdentifier);
    }
    let (a4, a6): (String, String) = extract_addresses(query_output);
    proof {
        lemma_scan_addrs_shape(crate::scan::split_on(query_output@, 10));
        let e4 = extracted_addrs(query_output@).0;
        let e6 = extracted_addrs(query_output@).1;
        if e4.len() > 0 {
            crate::addr::lemma_ipv4_ascii(e4);
            lemma_ascii_roundtrip(e4);
            assert(is_ipv4_text(a4@));
        } else {
            assert(a4@.len() == 0);
        }
        if e6.len() > 0 {
            crate::addr::lemma_ipv6_ascii(e6);
            lemma_ascii_roundtrip(e6);
            assert(is_ipv6_text(a6@));
        } else {
            assert(a6@.len() == 0);
        }
    }
    Ok(compile_delete(interface, identifier, a4.as_str(), a6.as_str()))
}

} // verus!
