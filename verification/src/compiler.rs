//! Compilation of peer intents into configuration-shell transactions.
//!
//! A transaction is an ordered sequence of command lines; mutating ones
//! end in a commit/save/exit line, read-only ones in a bare exit. The
//! compiler is a pure formatting stage: by contract, every interpolated
//! value has already passed its validator.

use crate::schemas::NewPeerIntent;
use crate::validators::valid_device_id;
use crate::validators::valid_identifier;
use crate::validators::valid_key;
use crate::validators::valid_name;
use vstd::prelude::*;

verus! {

/// An immutable configuration transaction: command lines, in order.
pub struct ConfigTransaction {
    pub lines: Vec<String>,
}

impl View for ConfigTransaction {
    type V = Seq<Seq<char>>;

    open spec fn view(&self) -> Seq<Seq<char>> {
        self.lines.deep_view()
    }
}

pub open spec fn preamble_line() -> Seq<char> {
    "source /opt/vyatta/etc/functions/script-template"@
}

pub open spec fn commit_line() -> Seq<char> {
    "commit;save;exit"@
}

pub open spec fn exit_line() -> Seq<char> {
    "exit"@
}

/// The derived peer identifier: owner names and device token joined by
/// hyphens.
pub open spec fn derived_id(first: Seq<char>, last: Seq<char>, device: Seq<char>) -> Seq<char> {
    first + "-"@ + last + "-"@ + device
}

pub open spec fn fw4_line(first: Seq<char>, last: Seq<char>, a4: Seq<char>) -> Seq<char> {
    "set firewall group address-group VPN-"@ + first + "-"@ + last + " address '"@ + a4 + "'"@
}

pub open spec fn fw6_line(first: Seq<char>, last: Seq<char>, a6: Seq<char>) -> Seq<char> {
    "set firewall group ipv6-address-group VPN-"@ + first + "-"@ + last + "-6 address '"@ + a6
        + "'"@
}

pub open spec fn allowed_ips4_line(iface: Seq<char>, id: Seq<char>, a4: Seq<char>) -> Seq<char> {
    "set interfaces wireguard "@ + iface + " peer "@ + id + " allowed-ips '"@ + a4 + "/32'"@
}

pub open spec fn allowed_ips6_line(iface: Seq<char>, id: Seq<char>, a6: Seq<char>) -> Seq<char> {
    "set interfaces wireguard "@ + iface + " peer "@ + id + " allowed-ips '"@ + a6 + "/128'"@
}

pub open spec fn pubkey_line(iface: Seq<char>, id: Seq<char>, key: Seq<char>) -> Seq<char> {
    "set interfaces wireguard "@ + iface + " peer "@ + id + " pubkey '"@ + key + "'"@
}

/// The preshared-key line keeps the legacy trailing semicolon.
pub open spec fn psk_line(iface: Seq<char>, id: Seq<char>, psk: Seq<char>) -> Seq<char> {
    "set interfaces wireguard "@ + iface + " peer "@ + id + " preshared-key '"@ + psk + "';"@
}

pub open spec fn show_line(iface: Seq<char>, id: Seq<char>) -> Seq<char> {
    "run show configuration commands | match 'interfaces wireguard "@ + iface + " peer "@ + id
        + "'"@
}

pub open spec fn show_allowed_ips_line(iface: Seq<char>, id: Seq<char>) -> Seq<char> {
    "run show configuration commands | match 'interfaces wireguard "@ + iface + " peer "@ + id
        + " allowed-ips'"@
}

pub open spec fn delete_peer_line(iface: Seq<char>, id: Seq<char>) -> Seq<char> {
    "delete interface wireguard "@ + iface + " peer "@ + id
}

pub open spec fn delete_fw4_line(owner: Seq<char>, a4: Seq<char>) -> Seq<char> {
    "delete firewall group address-group VPN-"@ + owner + "-"@ + owner + " address "@ + a4
}

pub open spec fn delete_fw6_line(owner: Seq<char>, a6: Seq<char>) -> Seq<char> {
    "delete firewall group ipv6-address-group VPN-"@ + owner + "-"@ + owner + "-6 address "@ + a6
}

/// The identifier's owner token: everything before the first hyphen.
pub open spec fn first_token(s: Seq<char>) -> Seq<char>
    decreases s.len(),
{
    if s.len() == 0 {
        Seq::<char>::empty()
    } else if s[0] == '-' {
        Seq::<char>::empty()
    } else {
        seq![s[0]] + first_token(s.drop_first())
    }
}

/// The read-only transaction that shows a peer's configuration lines.
pub open spec fn inspect_lines(iface: Seq<char>, id: Seq<char>) -> Seq<Seq<char>> {
    seq![preamble_line(), show_line(iface, id), exit_line()]
}

/// The read-only transaction that shows a peer's `allowed-ips` lines.
pub open spec fn delete_query_lines(iface: Seq<char>, id: Seq<char>) -> Seq<Seq<char>> {
    seq![preamble_line(), show_allowed_ips_line(iface, id), exit_line()]
}

/// The mutating transaction that provisions a peer: firewall group
/// entries, allowed-ips routes, the public key, the optional preshared
/// key, then commit.
pub open spec fn create_lines(
    iface: Seq<char>,
    first: Seq<char>,
    last: Seq<char>,
    device: Seq<char>,
    key: Seq<char>,
    psk: Option<Seq<char>>,
    a4: Seq<char>,
    a6: Seq<char>,
) -> Seq<Seq<char>> {
    let id = derived_id(first, last, device);
    seq![
        preamble_line(),
        fw4_line(first, last, a4),
        fw6_line(first, last, a6),
        allowed_ips4_line(iface, id, a4),
        allowed_ips6_line(iface, id, a6),
        pubkey_line(iface, id, key),
    ] + (match psk {
        Some(p) => seq![psk_line(iface, id, p)],
        None => Seq::<Seq<char>>::empty(),
    }) + seq![commit_line()]
}

/// The mutating transaction that removes a peer and its firewall group
/// entries, then commits. The group names double the identifier's owner
/// token: the legacy address-group naming, preserved as observed.
pub open spec fn delete_lines(
    iface: Seq<char>,
    id: Seq<char>,
    a4: Seq<char>,
    a6: Seq<char>,
) -> Seq<Seq<char>> {
    let owner = first_token(id);
    seq![
        preamble_line(),
        delete_peer_line(iface, id),
        delete_fw4_line(owner, a4),
        delete_fw6_line(owner, a6),
        commit_line(),
    ]
}

/// Adding a preshared key to a create intent inserts exactly one line,
/// just before the commit line, and changes nothing else.
pub proof fn lemma_psk_adds_one_line(
    iface: Seq<char>,
    first: Seq<char>,
    last: Seq<char>,
    device: Seq<char>,
    key: Seq<char>,
    psk: Seq<char>,
    a4: Seq<char>,
    a6: Seq<char>,
)
    ensures
        create_lines(iface, first, last, device, key, Some(psk), a4, a6) == create_lines(
            iface,
            first,
            last,
            device,
            key,
            None,
            a4,
            a6,
        ).insert(6, psk_line(iface, derived_id(first, last, device), psk)),
{
    assert(create_lines(iface, first, last, device, key, Some(psk), a4, a6) =~~= create_lines(
        iface,
        first,
        last,
        device,
        key,
        None,
        a4,
        a6,
    ).insert(6, psk_line(iface, derived_id(first, last, device), psk)));
}

/// A derived identifier built from valid owner names and a valid device
/// token always satisfies the identifier grammar.
pub proof fn lemma_derived_identifier_valid(first: Seq<char>, last: Seq<char>, device: Seq<char>)
    requires
        valid_name(first),
        valid_name(last),
        valid_device_id(device),
    ensures
        valid_identifier(derived_id(first, last, device)),
{
    reveal_strlit("-");
    let s = derived_id(first, last, device);
    let i = first.len() as int;
    let j = first.len() + 1 + last.len();
    assert(s.len() == first.len() + 1 + last.len() + 1 + device.len());
    assert(s[i] == '-');
    assert(s[j as int] == '-');
    assert forall|k: int| 0 <= k < i implies crate::validators::is_upper(#[trigger] s[k]) by {
        assert(s[k] == first[k]);
    }
    assert forall|k: int| i < k < j implies crate::validators::is_upper(#[trigger] s[k]) by {
        assert(s[k] == last[k - i - 1]);
    }
    assert forall|k: int| j < k < s.len() implies crate::validators::is_device_char(
        #[trigger] s[k],
    ) by {
        assert(s[k] == device[k - j - 1]);
    }
    assert(crate::validators::identifier_split(s, i, j as int));
}

proof fn lemma_first_token_prefix(s: Seq<char>, i: int)
    requires
        0 <= i <= s.len(),
        forall|k: int| 0 <= k < i ==> (#[trigger] s[k]) != '-',
        i < s.len() ==> s[i] == '-',
    ensures
        first_token(s) == s.take(i),
    decreases i,
{
    if i == 0 {
        assert(first_token(s) =~= s.take(0));
    } else {
        let t = s.drop_first();
        assert forall|k: int| 0 <= k < i - 1 implies (#[trigger] t[k]) != '-' by {
            assert(t[k] == s[k + 1]);
        }
        lemma_first_token_prefix(t, i - 1);
        assert(first_token(s) == seq![s[0]] + t.take(i - 1));
        assert(first_token(s) =~= s.take(i));
    }
}

/// The identifier's owner token: the text before the first hyphen.
pub fn owner_token(identifier: &str) -> (r: String)
    requires
        valid_identifier(identifier@),
    ensures
        r@ == first_token(identifier@),
{
    proof {
        crate::validators::lemma_valid_identifier_ascii(identifier@);
    }
    let n: usize = identifier.unicode_len();
    let mut i: usize = 0;
    while i < n && identifier.get_ascii(i) != 45
        invariant
            identifier.is_ascii(),
            n == identifier@.len(),
            i <= n,
            forall|k: int| 0 <= k < i ==> (#[trigger] identifier@[k]) != '-',
        decreases n - i,
    {
        i += 1;
    }
    proof {
        lemma_first_token_prefix(identifier@, i as int);
    }
    let r = identifier.substring_ascii(0, i);
    proof {
        assert(r@ == identifier@.take(i as int));
    }
    String::from_str(r)
}

fn build_preamble() -> (r: String)
    ensures
        r@ == preamble_line(),
{
    String::from_str("source /opt/vyatta/etc/functions/script-template")
}

fn build_commit() -> (r: String)
    ensures
        r@ == commit_line(),
{
    String::from_str("commit;save;exit")
}

fn build_exit() -> (r: String)
    ensures
        r@ == exit_line(),
{
    String::from_str("exit")
}

/// Derives the peer identifier from its owner names and device token.
pub fn derive_identifier(first: &str, last: &str, device: &str) -> (r: String)
    ensures
        r@ == derived_id(first@, last@, device@),
{
    String::from_str(first).concat("-").concat(last).concat("-").concat(device)
}

fn build_fw4(first: &str, last: &str, a4: &str) -> (r: String)
    ensures
        r@ == fw4_line(first@, last@, a4@),
{
    String::from_str("set firewall group address-group VPN-").concat(first).concat("-").concat(
        last,
    ).concat(" address '").concat(a4).concat("'")
}

fn build_fw6(first: &str, last: &str, a6: &str) -> (r: String)
    ensures
        r@ == fw6_line(first@, last@, a6@),
{
    String::from_str("set firewall group ipv6-address-group VPN-").concat(first).concat(
        "-",
    ).concat(last).concat("-6 address '").concat(a6).concat("'")
}

fn build_peer_prefix(iface: &str, id: &str) -> (r: String)
    ensures
        r@ == "set interfaces wireguard "@ + iface@ + " peer "@ + id@,
{
    String::from_str("set interfaces wireguard ").concat(iface).concat(" peer ").concat(id)
}

fn build_allowed_ips4(iface: &str, id: &str, a4: &str) -> (r: String)
    ensures
        r@ == allowed_ips4_line(iface@, id@, a4@),
{
    build_peer_prefix(iface, id).concat(" allowed-ips '").concat(a4).concat("/32'")
}

fn build_allowed_ips6(iface: &str, id: &str, a6: &str) -> (r: String)
    ensures
        r@ == allowed_ips6_line(iface@, id@, a6@),
{
    build_peer_prefix(iface, id).concat(" allowed-ips '").concat(a6).concat("/128'")
}

fn build_pubkey(iface: &str, id: &str, key: &str) -> (r: String)
    ensures
        r@ == pubkey_line(iface@, id@, key@),
{
    build_peer_prefix(iface, id).concat(" pubkey '").concat(key).concat("'")
}

fn build_psk(iface: &str, id: &str, psk: &str) -> (r: String)
    ensures
        r@ == psk_line(iface@, id@, psk@),
{
    build_peer_prefix(iface, id).concat(" preshared-key '").concat(psk).concat("';")
}

fn build_show(iface: &str, id: &str) -> (r: String)
    ensures
        r@ == show_line(iface@, id@),
{
    String::from_str("run show configuration commands | match 'interfaces wireguard ").concat(
        iface,
    ).concat(" peer ").concat(id).concat("'")
}

fn build_show_allowed_ips(iface: &str, id: &str) -> (r: String)
    ensures
        r@ == show_allowed_ips_line(iface@, id@),
{
    String::from_str("run show configuration commands | match 'interfaces wireguard ").concat(
        iface,
    ).concat(" peer ").concat(id).concat(" allowed-ips'")
}

fn build_delete_peer(iface: &str, id: &str) -> (r: String)
    ensures
        r@ == delete_peer_line(iface@, id@),
{
    String::from_str("delete interface wireguard ").concat(iface).concat(" peer ").concat(id)
}

fn build_delete_fw4(owner: &str, a4: &str) -> (r: String)
    ensures
        r@ == delete_fw4_line(owner@, a4@),
{
    String::from_str("delete firewall group address-group VPN-").concat(owner).concat("-").concat(
        owner,
    ).concat(" address ").concat(a4)
}

fn build_delete_fw6(owner: &str, a6: &str) -> (r: String)
    ensures
        r@ == delete_fw6_line(owner@, a6@),
{
    String::from_str("delete firewall group ipv6-address-group VPN-").concat(owner).concat(
        "-",
    ).concat(owner).concat("-6 address ").concat(a6)
}

/// Compiles the read-only transaction that inspects a peer.
pub fn compile_inspect(interface: &str, identifier: &str) -> (t: ConfigTransaction)
    requires
        valid_identifier(identifier@),
    ensures
        t@ == inspect_lines(interface@, identifier@),
{
    let mut lines: Vec<String> = Vec::new();
    lines.push(build_preamble());
    lines.push(build_show(interface, identifier));
    lines.push(build_exit());
    let t = ConfigTransaction { lines };
    proof {
        assert(t@ =~~= inspect_lines(interface@, identifier@));
    }
    t
}

/// Compiles the read-only transaction that lists a peer's allowed-ips.
pub fn compile_delete_query(interface: &str, identifier: &str) -> (t: ConfigTransaction)
    requires
        valid_identifier(identifier@),
    ensures
        t@ == delete_query_lines(interface@, identifier@),
{
    let mut lines: Vec<String> = Vec::new();
    lines.push(build_preamble());
    lines.push(build_show_allowed_ips(interface, identifier));
    lines.push(build_exit());
    let t = ConfigTransaction { lines };
    proof {
        assert(t@ =~~= delete_query_lines(interface@, identifier@));
    }
    t
}

/// Compiles the mutating transaction that provisions a peer. Every
/// interpolated value must already have passed its validator.
pub fn compile_create(interface: &str, intent: &NewPeerIntent) -> (t: ConfigTransaction)
    requires
        valid_name(intent.firstname@),
        valid_name(intent.lastname@),
        valid_device_id(intent.device_id@),
        valid_key(intent.public_key@),
        intent.psk matches Some(p) ==> valid_key(p@),
        crate::addr::is_ipv4_text(intent.tunnel_ipv4@),
        crate::addr::is_ipv6_text(intent.tunnel_ipv6@),
    ensures
        t@ == create_lines(
            interface@,
            intent.firstname@,
            intent.lastname@,
            intent.device_id@,
            intent.public_key@,
            intent.psk.deep_view(),
            intent.tunnel_ipv4@,
            intent.tunnel_ipv6@,
        ),
{
    let id: String = derive_identifier(
        intent.firstname.as_str(),
        intent.lastname.as_str(),
        intent.device_id.as_str(),
    );
    let mut lines: Vec<String> = Vec::new();
    lines.push(build_preamble());
    lines.push(
        build_fw4(intent.firstname.as_str(), intent.lastname.as_str(), intent.tunnel_ipv4.as_str()),
    );
    lines.push(
        build_fw6(intent.firstname.as_str(), intent.lastname.as_str(), intent.tunnel_ipv6.as_str()),
    );
    lines.push(build_allowed_ips4(interface, id.as_str(), intent.tunnel_ipv4.as_str()));
    lines.push(build_allowed_ips6(interface, id.as_str(), intent.tunnel_ipv6.as_str()));
    lines.push(build_pubkey(interface, id.as_str(), intent.public_key.as_str()));
    match &intent.psk {
        Some(p) => {
            lines.push(build_psk(interface, id.as_str(), p.as_str()));
        },
        None => {},
    }
    lines.push(build_commit());
    let t = ConfigTransaction { lines };
    proof {
        assert(t@ =~~= create_lines(
            interface@,
            intent.firstname@,
            intent.lastname@,
            intent.device_id@,
            intent.public_key@,
            intent.psk.deep_view(),
            intent.tunnel_ipv4@,
            intent.tunnel_ipv6@,
        ));
    }
    t
}

/// Compiles the mutating transaction that removes a peer. The addresses
/// are the ones recovered from the router, or empty when none were found.
pub fn compile_delete(interface: &str, identifier: &str, a4: &str, a6: &str) -> (t:
    ConfigTransaction)
    requires
        valid_identifier(identifier@),
        a4@.len() == 0 || crate::addr::is_ipv4_text(a4@),
        a6@.len() == 0 || crate::addr::is_ipv6_text(a6@),
    ensures
        t@ == delete_lines(interface@, identifier@, a4@, a6@),
{
    let owner: String = owner_token(identifier);
    let mut lines: Vec<String> = Vec::new();
    lines.push(build_preamble());
    lines.push(build_delete_peer(interface, identifier));
    lines.push(build_delete_fw4(owner.as_str(), a4));
    lines.push(build_delete_fw6(owner.as_str(), a6));
    lines.push(build_commit());
    let t = ConfigTransaction { lines };
    proof {
        assert(t@ =~~= delete_lines(interface@, identifier@, a4@, a6@));
    }
    t
}

/// The newline-joined text of a sequence of command lines.
pub open spec fn join_lines(lines: Seq<Seq<char>>) -> Seq<char>
    decreases lines.len(),
{
    if lines.len() == 0 {
        Seq::<char>::empty()
    } else if lines.len() == 1 {
        lines[0]
    } else {
        join_lines(lines.drop_last()) + "\n"@ + lines.last()
    }
}

impl ConfigTransaction {
    /// Renders the transaction as the newline-separated text handed to the
    /// configuration shell's input stream.
    pub fn text(&self) -> (r: String)
        ensures
            r@ == join_lines(self@),
    {
        let n: usize = self.lines.len();
        let ghost glines = self@;
        proof {
            assert(glines.len() == n);
        }
        let mut acc: String = String::new();
        let mut i: usize = 0;
        while i < n
            invariant
                glines == self@,
                n == self.lines@.len(),
                glines.len() == n,
                i <= n,
                acc@ == join_lines(glines.take(i as int)),
        decreases n - i,
        {
            proof {
                assert(glines[i as int] == self.lines@[i as int]@);
                assert(glines.take(i as int + 1).drop_last() =~= glines.take(i as int));
                assert(glines.take(i as int + 1).last() == glines[i as int]);
            }
            if i > 0 {
                acc.append("\n");
            }
            acc.append(self.lines[i].as_str());
            i += 1;
        }
        proof {
            assert(glines.take(n as int) =~= glines);
        }
        acc
    }
}

} // verus!
