//! Interpretation of raw configuration-shell output.
//!
//! The shell reports nothing structured, so peer facts are scraped out of
//! its free text: presence is inferred from the output's size, and tunnel
//! addresses from `allowed-ips` lines, leniently, skipping every line that
//! does not look like one.

use crate::addr::is_ipv4;
use crate::addr::is_ipv4_literal;
use crate::addr::is_ipv6;
use crate::addr::is_ipv6_literal;
use crate::addr::lemma_ipv4_ascii;
use crate::addr::lemma_ipv6_ascii;
use crate::scan::lemma_split_on_len;
use crate::scan::lemma_vec_u8_deep;
use crate::scan::split_bytes;
use crate::scan::split_on;
use crate::scan::ws_fields;
use crate::scan::ws_tokens;
use vstd::prelude::*;
use vstd::slice::slice_subrange;
use vstd::slice::slice_to_vec;

verus! {

/// Whether shell output of this shape signals that the peer's
/// configuration is currently present on the router.
pub open spec fn spec_validity(output: Seq<u8>) -> bool {
    output.len() > 1
}

/// Infers peer presence from raw shell output: any output longer than one
/// byte is taken as "the peer's configuration is present". The external
/// shell reports nothing structured, so presence is inferred from output
/// shape alone.
pub fn infer_validity(output: &[u8]) -> (valid: bool)
    ensures
        valid == spec_validity(output@),
{
    output.len() > 1
}

/// The candidate address of one output line: on a line of at least eight
/// whitespace-separated fields whose eighth is single-quoted, the quotes
/// are stripped and everything before the first `/` is the candidate.
/// Other lines carry none.
pub open spec fn candidate_addr(line: Seq<u8>) -> Option<Seq<u8>> {
    let fs = ws_tokens(line);
    if fs.len() >= 8 && fs[7].len() >= 2 && fs[7][0] == 39 && fs[7].last() == 39 {
        Some(split_on(fs[7].subrange(1, fs[7].len() as int - 1), 47)[0])
    } else {
        None
    }
}

/// The pair of address texts a sequence of output lines yields: each
/// line's candidate overwrites the IPv4 slot if it is an IPv4 literal and
/// the IPv6 slot if it is an IPv6 literal; all other lines are skipped.
/// An empty text means the slot was never written.
pub open spec fn scan_addrs(lines: Seq<Seq<u8>>) -> (Seq<u8>, Seq<u8>)
    decreases lines.len(),
{
    if lines.len() == 0 {
        (Seq::<u8>::empty(), Seq::<u8>::empty())
    } else {
        let prev = scan_addrs(lines.drop_last());
        match candidate_addr(lines.last()) {
            Some(a) => if is_ipv4_literal(a) {
                (a, prev.1)
            } else if is_ipv6_literal(a) {
                (prev.0, a)
            } else {
                prev
            },
            None => prev,
        }
    }
}

/// The tunnel addresses scraped from raw shell output, line by line.
pub open spec fn extracted_addrs(output: Seq<u8>) -> (Seq<u8>, Seq<u8>) {
    scan_addrs(split_on(output, 10))
}

/// The characters an ASCII byte sequence spells.
pub open spec fn chars_of(s: Seq<u8>) -> Seq<char> {
    s.map_values(|b: u8| b as char)
}

/// ASCII bytes spell ASCII characters, and those characters spell the
/// same bytes back.
pub proof fn lemma_ascii_roundtrip(a: Seq<u8>)
    requires
        forall|k: int| 0 <= k < a.len() ==> (#[trigger] a[k]) < 128,
    ensures
        vstd::utf8::is_ascii_chars(chars_of(a)),
        crate::addr::bytes_of(chars_of(a)) =~= a,
{
    assert forall|k: int|
        0 <= k < a.len() implies '\0' <= #[trigger] chars_of(a)[k] <= '\u{7f}' by {
        assert(chars_of(a)[k] == a[k] as char);
    }
}

/// Each slot of a scan is either untouched (empty) or holds a literal of
/// its family.
pub proof fn lemma_scan_addrs_shape(lines: Seq<Seq<u8>>)
    ensures
        scan_addrs(lines).0.len() == 0 || is_ipv4_literal(scan_addrs(lines).0),
        scan_addrs(lines).1.len() == 0 || is_ipv6_literal(scan_addrs(lines).1),
    decreases lines.len(),
{
    if lines.len() > 0 {
        lemma_scan_addrs_shape(lines.drop_last());
    }
}

/// A line that carries no candidate address — too few fields, or an
/// unquoted eighth field — changes neither extracted slot.
pub proof fn lemma_line_without_candidate_skipped(lines: Seq<Seq<u8>>, line: Seq<u8>)
    requires
        candidate_addr(line) is None || (candidate_addr(line) matches Some(a)
            && !is_ipv4_literal(a) && !is_ipv6_literal(a)),
    ensures
        scan_addrs(lines.push(line)) == scan_addrs(lines),
{
    assert(lines.push(line).drop_last() =~= lines);
    assert(lines.push(line).last() == line);
}

/// A line whose candidate is an address literal overwrites exactly the
/// slot of its family and leaves the other slot alone.
pub proof fn lemma_candidate_sets_slot(lines: Seq<Seq<u8>>, line: Seq<u8>, a: Seq<u8>)
    requires
        candidate_addr(line) == Some(a),
    ensures
        is_ipv4_literal(a) ==> scan_addrs(lines.push(line)) == (a, scan_addrs(lines).1),
        !is_ipv4_literal(a) && is_ipv6_literal(a) ==> scan_addrs(lines.push(line)) == (
            scan_addrs(lines).0,
            a,
        ),
{
    assert(lines.push(line).drop_last() =~= lines);
    assert(lines.push(line).last() == line);
}

/// Relies on String::from_utf8_lossy: ASCII bytes are valid UTF-8 and come
/// back as exactly those characters.
#[verifier::external_body]
fn ascii_to_string(v: &[u8]) -> (r: String)
    requires
        forall|k: int| 0 <= k < v@.len() ==> (#[trigger] v@[k]) < 128,
    ensures
        r@ == chars_of(v@),
{
    String::from_utf8_lossy(v).into_owned()
}

/// Scrapes the peer's IPv4 and IPv6 tunnel addresses out of raw shell
/// output. A slot comes back as the empty string when no line of the
/// output assigned it.
#[verifier::loop_isolation(false)]
pub fn extract_addresses(output: &[u8]) -> (r: (String, String))
    ensures
        r.0@ == chars_of(extracted_addrs(output@).0),
        r.1@ == chars_of(extracted_addrs(output@).1),
{
    let lines: Vec<Vec<u8>> = split_bytes(output, 10);
    let ghost glines = split_on(output@, 10);
    let n: usize = lines.len();
    proof {
        assert forall|t: int| 0 <= t < glines.len() implies #[trigger] glines[t] == lines@[t]@ by {
            lemma_vec_u8_deep(lines@[t]);
            assert(glines[t] == lines@[t].deep_view());
        }
    }
    let mut a4: Vec<u8> = Vec::new();
    let mut a6: Vec<u8> = Vec::new();
    let mut i: usize = 0;
    while i < n
        invariant
            i <= n,
            a4@ == scan_addrs(glines.take(i as int)).0,
            a6@ == scan_addrs(glines.take(i as int)).1,
        decreases n - i,
    {
        let ghost gline = glines[i as int];
        let fs: Vec<Vec<u8>> = ws_fields(lines[i].as_slice());
        let ghost gfs = ws_tokens(gline);
        proof {
            assert(fs.deep_view() == gfs);
            assert forall|t: int| 0 <= t < gfs.len() implies #[trigger] gfs[t] == fs@[t]@ by {
                lemma_vec_u8_deep(fs@[t]);
                assert(gfs[t] == fs@[t].deep_view());
            }
        }
        if fs.len() >= 8 {
            let flen: usize = fs[7].len();
            if flen >= 2 && fs[7][0] == 39 && fs[7][flen - 1] == 39 {
                let inner: &[u8] = slice_subrange(fs[7].as_slice(), 1, flen - 1);
                let parts: Vec<Vec<u8>> = split_bytes(inner, 47);
                proof {
                    lemma_split_on_len(inner@, 47);
                    lemma_vec_u8_deep(parts@[0]);
                    assert(parts@[0]@ == split_on(inner@, 47)[0]);
                    assert(candidate_addr(gline) == Some(parts@[0]@));
                }
                if is_ipv4(parts[0].as_slice()) {
                    a4 = slice_to_vec(parts[0].as_slice());
                } else if is_ipv6(parts[0].as_slice()) {
                    a6 = slice_to_vec(parts[0].as_slice());
                }
            } else {
                proof {
                    assert(candidate_addr(gline) is None);
                }
            }
        } else {
            proof {
                assert(candidate_addr(gline) is None);
            }
        }
        proof {
            assert(glines.take(i as int + 1).drop_last() =~= glines.take(i as int));
            assert(glines.take(i as int + 1).last() == glines[i as int]);
        }
        i += 1;
    }
    proof {
        assert(glines.take(glines.len() as int) =~= glines);
        lemma_scan_addrs_shape(glines);
        if extracted_addrs(output@).0.len() > 0 {
            lemma_ipv4_ascii(a4@);
        }
        if extracted_addrs(output@).1.len() > 0 {
            lemma_ipv6_ascii(a6@);
        }
    }
    let s4: String = ascii_to_string(a4.as_slice());
    let s6: String = ascii_to_string(a6.as_slice());
    (s4, s6)
}

} // verus!
