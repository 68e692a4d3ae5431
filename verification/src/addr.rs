//! Textual IPv4 and IPv6 address grammars over ASCII bytes.
//!
//! The output parser uses these to classify the address it scraped out of a
//! shell line, and the command compiler's callers use them to check tunnel
//! addresses before they are interpolated into a transaction.

use crate::scan::split_bytes;
use crate::scan::split_on;
use crate::scan::lemma_vec_u8_deep;
use vstd::prelude::*;
use vstd::string::StringSliceAdditionalSpecFns;

verus! {

pub open spec fn is_digit_byte(b: u8) -> bool {
    48 <= b <= 57
}

pub open spec fn is_hex_byte(b: u8) -> bool {
    is_digit_byte(b) || (97 <= b <= 102) || (65 <= b <= 70)
}

/// The number a sequence of ASCII digits denotes.
pub open spec fn dec_val(s: Seq<u8>) -> int
    decreases s.len(),
{
    if s.len() == 0 {
        0
    } else {
        dec_val(s.drop_last()) * 10 + (s.last() - 48)
    }
}

/// A decimal octet of a dotted-quad address: one to three digits, value at
/// most 255, no leading zero.
pub open spec fn is_dec_octet(s: Seq<u8>) -> bool {
    &&& 1 <= s.len() <= 3
    &&& (forall|k: int| 0 <= k < s.len() ==> is_digit_byte(#[trigger] s[k]))
    &&& dec_val(s) <= 255
    &&& (s.len() > 1 ==> s[0] != 48)
}

/// A dotted-quad IPv4 literal: four decimal octets joined by `.`.
pub open spec fn is_ipv4_literal(s: Seq<u8>) -> bool {
    let ps = split_on(s, 46);
    ps.len() == 4 && (forall|k: int| 0 <= k < 4 ==> is_dec_octet(#[trigger] ps[k]))
}

/// A 16-bit group of an IPv6 literal: one to four hex digits.
pub open spec fn is_h16(s: Seq<u8>) -> bool {
    &&& 1 <= s.len() <= 4
    &&& forall|k: int| 0 <= k < s.len() ==> is_hex_byte(#[trigger] s[k])
}

pub open spec fn all_h16(ps: Seq<Seq<u8>>, from: int, to: int) -> bool {
    forall|k: int| from <= k < to ==> is_h16(#[trigger] ps[k])
}

/// The colon-separated pieces `from..to` read as the end of an address:
/// hex groups, the last of which may instead be an embedded IPv4 literal.
pub open spec fn tail_groups_ok(ps: Seq<Seq<u8>>, from: int, to: int) -> bool {
    &&& from < to
    &&& all_h16(ps, from, to - 1)
    &&& (is_h16(ps[to - 1]) || is_ipv4_literal(ps[to - 1]))
}

/// How many 16-bit groups the pieces `from..to` stand for: an embedded
/// IPv4 literal at the end covers two.
pub open spec fn group_weight(ps: Seq<Seq<u8>>, from: int, to: int) -> int {
    to - from + if from < to && is_ipv4_literal(ps[to - 1]) {
        1int
    } else {
        0int
    }
}

/// An IPv6 literal over its colon-separated pieces: either eight groups
/// (an embedded IPv4 literal counting as the last two), or a single `::`
/// eliding at least one zero group, with at most seven groups around it.
pub open spec fn is_ipv6_literal(s: Seq<u8>) -> bool {
    let ps = split_on(s, 58);
    let n = ps.len() as int;
    ||| (n == 8 && all_h16(ps, 0, 8))
    ||| (n == 7 && all_h16(ps, 0, 6) && is_ipv4_literal(ps[6]))
    ||| (n == 3 && ps[0].len() == 0 && ps[1].len() == 0 && ps[2].len() == 0)
    ||| (n >= 3 && ps[0].len() == 0 && ps[1].len() == 0 && tail_groups_ok(ps, 2, n)
        && group_weight(ps, 2, n) <= 7)
    ||| (n >= 3 && ps[n - 1].len() == 0 && ps[n - 2].len() == 0 && all_h16(ps, 0, n - 2) && n - 2
        <= 7)
    ||| (exists|k: int|
        0 < k < n - 1 && ps[k].len() == 0 && #[trigger] all_h16(ps, 0, k) && tail_groups_ok(
            ps,
            k + 1,
            n,
        ) && k + group_weight(ps, k + 1, n) <= 7)
}

/// Checks one dotted-quad octet.
fn check_octet(p: &[u8]) -> (r: bool)
    ensures
        r == is_dec_octet(p@),
{
    let n: usize = p.len();
    if n < 1 || n > 3 {
        return false;
    }
    let mut k: usize = 0;
    let mut v: u32 = 0;
    while k < n
        invariant
            n == p@.len(),
            n <= 3,
            k <= n,
            forall|t: int| 0 <= t < k ==> is_digit_byte(#[trigger] p@[t]),
            v == dec_val(p@.take(k as int)),
            k == 0 ==> v == 0,
            k == 1 ==> v <= 9,
            k == 2 ==> v <= 99,
            k == 3 ==> v <= 999,
        decreases n - k,
    {
        let b: u8 = p[k];
        if b < 48 || b > 57 {
            return false;
        }
        proof {
            assert(p@.take(k as int + 1).drop_last() =~= p@.take(k as int));
            assert(p@.take(k as int + 1).last() == p@[k as int]);
        }
        v = v * 10 + (b - 48) as u32;
        k += 1;
    }
    proof {
        assert(p@.take(n as int) =~= p@);
    }
    if v > 255 {
        return false;
    }
    if n > 1 && p[0] == 48 {
        return false;
    }
    true
}

/// Checks a dotted-quad IPv4 literal such as `10.0.0.5`.
pub fn is_ipv4(s: &[u8]) -> (r: bool)
    ensures
        r == is_ipv4_literal(s@),
{
    let ps: Vec<Vec<u8>> = split_bytes(s, 46);
    let ghost gps = split_on(s@, 46);
    if ps.len() != 4 {
        return false;
    }
    let mut k: usize = 0;
    while k < 4
        invariant
            ps.deep_view() == gps,
            gps == split_on(s@, 46),
            ps@.len() == 4,
            k <= 4,
            forall|t: int| 0 <= t < k ==> is_dec_octet(#[trigger] gps[t]),
        decreases 4 - k,
    {
        proof {
            lemma_vec_u8_deep(ps@[k as int]);
            assert(gps[k as int] == ps@[k as int].deep_view());
        }
        if !check_octet(ps[k].as_slice()) {
            return false;
        }
        k += 1;
    }
    true
}

/// Checks one hex group.
fn check_h16(p: &[u8]) -> (r: bool)
    ensures
        r == is_h16(p@),
{
    let n: usize = p.len();
    if n < 1 || n > 4 {
        return false;
    }
    let mut k: usize = 0;
    while k < n
        invariant
            n == p@.len(),
            k <= n,
            forall|t: int| 0 <= t < k ==> is_hex_byte(#[trigger] p@[t]),
        decreases n - k,
    {
        let b: u8 = p[k];
        if !(b >= 48 && b <= 57 || b >= 97 && b <= 102 || b >= 65 && b <= 70) {
            return false;
        }
        k += 1;
    }
    true
}

/// Checks that the pieces `from..ps.len()` form a valid address tail: hex
/// groups with possibly an embedded IPv4 literal last. The second result
/// reports whether the last piece is that embedded IPv4 literal.
#[verifier::loop_isolation(false)]
fn check_tail(ps: &Vec<Vec<u8>>, from: usize) -> (r: (bool, bool))
    requires
        from <= ps@.len(),
    ensures
        r.0 == tail_groups_ok(ps.deep_view(), from as int, ps.deep_view().len() as int),
        ps@.len() > 0 ==> r.1 == is_ipv4_literal(ps.deep_view().last()),
{
    let n: usize = ps.len();
    let ghost gps = ps.deep_view();
    proof {
        assert(gps.len() == ps@.len());
        assert forall|t: int| 0 <= t < gps.len() implies #[trigger] gps[t] == ps@[t]@ by {
            lemma_vec_u8_deep(ps@[t]);
            assert(gps[t] == ps@[t].deep_view());
        }
    }
    if n == 0 {
        return (false, false);
    }
    let last_v4: bool = is_ipv4(ps[n - 1].as_slice());
    if from >= n {
        return (false, last_v4);
    }
    let mut k: usize = from;
    while k < n - 1
        invariant
            gps == ps.deep_view(),
            forall|t: int| 0 <= t < gps.len() ==> #[trigger] gps[t] == ps@[t]@,
            n == ps@.len(),
            from <= k <= n - 1,
            n >= 1,
            all_h16(gps, from as int, k as int),
        decreases n - k,
    {
        proof {
            lemma_vec_u8_deep(ps@[k as int]);
            assert(gps[k as int] == ps@[k as int]@);
        }
        if !check_h16(ps[k].as_slice()) {
            return (false, last_v4);
        }
        k += 1;
    }
    proof {
        lemma_vec_u8_deep(ps@[n - 1]);
    }
    let last_h16: bool = check_h16(ps[n - 1].as_slice());
    if !(last_h16 || last_v4) {
        return (false, last_v4);
    }
    (true, last_v4)
}

/// Checks an IPv6 literal such as `fd00::5`.
#[verifier::loop_isolation(false)]
pub fn is_ipv6(s: &[u8]) -> (r: bool)
    ensures
        r == is_ipv6_literal(s@),
{
    let ps: Vec<Vec<u8>> = split_bytes(s, 58);
    let ghost gps = split_on(s@, 58);
    let n: usize = ps.len();
    proof {
        crate::scan::lemma_split_on_len(s@, 58);
        assert forall|t: int| 0 <= t < gps.len() implies #[trigger] gps[t] == ps@[t]@ by {
            lemma_vec_u8_deep(ps@[t]);
            assert(gps[t] == ps@[t].deep_view());
        }
    }
    // Eight plain groups.
    if n == 8 {
        let mut k: usize = 0;
        let mut ok: bool = true;
        while k < 8
            invariant
                gps == ps.deep_view(),
            forall|t: int| 0 <= t < gps.len() ==> #[trigger] gps[t] == ps@[t]@,
                n == ps@.len() == 8,
                k <= 8,
                ok == all_h16(gps, 0, k as int),
            decreases 8 - k,
        {
            proof {
                lemma_vec_u8_deep(ps@[k as int]);
                assert(gps[k as int] == ps@[k as int]@);
            }
            if !check_h16(ps[k].as_slice()) {
                ok = false;
            }
            k += 1;
        }
        if ok {
            return true;
        }
    }
    // Six groups and an embedded IPv4 literal.
    if n == 7 {
        let mut k: usize = 0;
        let mut ok: bool = true;
        while k < 6
            invariant
                gps == ps.deep_view(),
            forall|t: int| 0 <= t < gps.len() ==> #[trigger] gps[t] == ps@[t]@,
                n == ps@.len() == 7,
                k <= 6,
                ok == all_h16(gps, 0, k as int),
            decreases 6 - k,
        {
            proof {
                lemma_vec_u8_deep(ps@[k as int]);
                assert(gps[k as int] == ps@[k as int]@);
            }
            if !check_h16(ps[k].as_slice()) {
                ok = false;
            }
            k += 1;
        }
        proof {
            lemma_vec_u8_deep(ps@[6]);
        }
        if ok && is_ipv4(ps[6].as_slice()) {
            return true;
        }
    }
    // A bare `::`.
    if n == 3 && ps[0].len() == 0 && ps[1].len() == 0 && ps[2].len() == 0 {
        proof {
            lemma_vec_u8_deep(ps@[0]);
            lemma_vec_u8_deep(ps@[1]);
            lemma_vec_u8_deep(ps@[2]);
        }
        return true;
    }
    // A leading `::`.
    if n >= 3 && ps[0].len() == 0 && ps[1].len() == 0 {
        proof {
            lemma_vec_u8_deep(ps@[0]);
            lemma_vec_u8_deep(ps@[1]);
        }
        let (ok, v4): (bool, bool) = check_tail(&ps, 2);
        proof {
            if ok {
                assert(group_weight(gps, 2, n as int) == n - 2 + if v4 {
                    1int
                } else {
                    0int
                });
            }
        }
        if ok && (n <= 8 && v4 || n <= 9 && !v4) {
            return true;
        }
    }
    // A trailing `::`.
    if n >= 3 && ps[n - 1].len() == 0 && ps[n - 2].len() == 0 && n - 2 <= 7 {
        proof {
            lemma_vec_u8_deep(ps@[n - 1]);
            lemma_vec_u8_deep(ps@[n - 2]);
        }
        let mut k: usize = 0;
        let mut ok: bool = true;
        while k < n - 2
            invariant
                gps == ps.deep_view(),
            forall|t: int| 0 <= t < gps.len() ==> #[trigger] gps[t] == ps@[t]@,
                n == ps@.len(),
                n >= 3,
                k <= n - 2,
                ok == all_h16(gps, 0, k as int),
            decreases n - k,
        {
            proof {
                lemma_vec_u8_deep(ps@[k as int]);
                assert(gps[k as int] == ps@[k as int]@);
            }
            if !check_h16(ps[k].as_slice()) {
                ok = false;
            }
            k += 1;
        }
        if ok {
            return true;
        }
    }
    // A single internal `::`: the piece at the first empty position.
    let mut e: usize = 0;
    while e < n && ps[e].len() != 0
        invariant
            gps == ps.deep_view(),
            forall|t: int| 0 <= t < gps.len() ==> #[trigger] gps[t] == ps@[t]@,
            n == ps@.len(),
            e <= n,
            forall|t: int| 0 <= t < e ==> (#[trigger] gps[t]).len() != 0,
        decreases n - e,
    {
        proof {
            lemma_vec_u8_deep(ps@[e as int]);
        }
        e += 1;
    }
    proof {
        if e < n {
            lemma_vec_u8_deep(ps@[e as int]);
        }
    }
    if e > 0 && e < n - 1 {
        let mut k: usize = 0;
        let mut ok: bool = true;
        while k < e
            invariant
                gps == ps.deep_view(),
            forall|t: int| 0 <= t < gps.len() ==> #[trigger] gps[t] == ps@[t]@,
                n == ps@.len(),
                e < n,
                k <= e,
                ok == all_h16(gps, 0, k as int),
            decreases e - k,
        {
            proof {
                lemma_vec_u8_deep(ps@[k as int]);
                assert(gps[k as int] == ps@[k as int]@);
            }
            if !check_h16(ps[k].as_slice()) {
                ok = false;
            }
            k += 1;
        }
        if ok {
            let (tok, v4): (bool, bool) = check_tail(&ps, e + 1);
            proof {
                if tok {
                    assert(group_weight(gps, e as int + 1, n as int) == n - e - 1 + if v4 {
                        1int
                    } else {
                        0int
                    });
                }
            }
            if tok && (n <= 7 && v4 || n <= 8 && !v4) {
                return true;
            }
        }
    }
    proof {
        no_internal_split(gps, e as int);
    }
    false
}

/// If every piece before the first empty one is a hex group and the checks
/// at the first empty position failed, no internal `::` split is valid.
proof fn no_internal_split(ps: Seq<Seq<u8>>, e: int)
    requires
        0 <= e <= ps.len(),
        forall|t: int| 0 <= t < e ==> (#[trigger] ps[t]).len() != 0,
        e < ps.len() ==> ps[e].len() == 0,
        !(0 < e < ps.len() - 1 && all_h16(ps, 0, e) && tail_groups_ok(ps, e + 1, ps.len() as int)
            && e + group_weight(ps, e + 1, ps.len() as int) <= 7),
    ensures
        !(exists|k: int|
            0 < k < ps.len() - 1 && ps[k].len() == 0 && #[trigger] all_h16(ps, 0, k)
                && tail_groups_ok(ps, k + 1, ps.len() as int) && k + group_weight(
                ps,
                k + 1,
                ps.len() as int,
            ) <= 7),
{
    let n = ps.len() as int;
    if exists|k: int|
        0 < k < n - 1 && ps[k].len() == 0 && #[trigger] all_h16(ps, 0, k) && tail_groups_ok(
            ps,
            k + 1,
            n,
        ) && k + group_weight(ps, k + 1, n) <= 7 {
        let k = choose|k: int|
            0 < k < n - 1 && ps[k].len() == 0 && #[trigger] all_h16(ps, 0, k) && tail_groups_ok(
                ps,
                k + 1,
                n,
            ) && k + group_weight(ps, k + 1, n) <= 7;
        if k < e {
            assert(ps[k].len() != 0);
        } else if k > e {
            assert(is_h16(ps[e]));
        }
        assert(false);
    }
}

/// Every byte of `s` is below 128 when the separator and every byte of
/// every piece of the split are.
proof fn lemma_split_ascii(s: Seq<u8>, sep: u8)
    requires
        sep < 128,
        forall|i: int, j: int|
            0 <= i < split_on(s, sep).len() && 0 <= j < split_on(s, sep)[i].len() ==> (
            #[trigger] split_on(s, sep)[i][j]) < 128,
    ensures
        forall|k: int| 0 <= k < s.len() ==> (#[trigger] s[k]) < 128,
    decreases s.len(),
{
    if s.len() > 0 {
        let ps = split_on(s, sep);
        let t = s.drop_first();
        let rest = split_on(t, sep);
        crate::scan::lemma_split_on_len(t, sep);
        if s[0] == sep {
            assert(ps =~~= seq![Seq::<u8>::empty()] + rest);
            assert forall|i: int, j: int|
                0 <= i < rest.len() && 0 <= j < rest[i].len() implies (#[trigger] rest[i][j])
                < 128 by {
                assert(rest[i] == ps[i + 1]);
                assert(ps[i + 1][j] < 128);
            }
            lemma_split_ascii(t, sep);
            assert forall|k: int| 0 <= k < s.len() implies (#[trigger] s[k]) < 128 by {
                if k > 0 {
                    assert(s[k] == t[k - 1]);
                }
            }
        } else {
            assert(ps =~~= seq![seq![s[0]] + rest[0]] + rest.drop_first());
            assert(ps[0][0] == s[0]);
            assert(s[0] < 128);
            assert forall|i: int, j: int|
                0 <= i < rest.len() && 0 <= j < rest[i].len() implies (#[trigger] rest[i][j])
                < 128 by {
                if i == 0 {
                    assert(rest[0][j] == ps[0][j + 1]);
                    assert(ps[0][j + 1] < 128);
                } else {
                    assert(rest[i] == ps[i]);
                    assert(ps[i][j] < 128);
                }
            }
            lemma_split_ascii(t, sep);
            assert forall|k: int| 0 <= k < s.len() implies (#[trigger] s[k]) < 128 by {
                if k > 0 {
                    assert(s[k] == t[k - 1]);
                }
            }
        }
    }
}

/// An IPv4 literal consists of ASCII bytes only.
pub proof fn lemma_ipv4_ascii(s: Seq<u8>)
    requires
        is_ipv4_literal(s),
    ensures
        forall|k: int| 0 <= k < s.len() ==> (#[trigger] s[k]) < 128,
{
    let ps = split_on(s, 46);
    assert forall|i: int, j: int|
        0 <= i < ps.len() && 0 <= j < ps[i].len() implies (#[trigger] ps[i][j]) < 128 by {
        assert(is_dec_octet(ps[i]));
        assert(is_digit_byte(ps[i][j]));
    }
    lemma_split_ascii(s, 46);
}

/// An IPv6 literal consists of ASCII bytes only.
pub proof fn lemma_ipv6_ascii(s: Seq<u8>)
    requires
        is_ipv6_literal(s),
    ensures
        forall|k: int| 0 <= k < s.len() ==> (#[trigger] s[k]) < 128,
{
    let ps = split_on(s, 58);
    let n = ps.len() as int;
    assert forall|i: int, j: int|
        0 <= i < ps.len() && 0 <= j < ps[i].len() implies (#[trigger] ps[i][j]) < 128 by {
        if n == 8 && all_h16(ps, 0, 8) {
            assert(is_h16(ps[i]));
            assert(is_hex_byte(ps[i][j]));
        } else if n == 7 && all_h16(ps, 0, 6) && is_ipv4_literal(ps[6]) {
            if i < 6 {
                assert(is_h16(ps[i]));
                assert(is_hex_byte(ps[i][j]));
            } else {
                lemma_ipv4_ascii(ps[6]);
            }
        } else if n == 3 && ps[0].len() == 0 && ps[1].len() == 0 && ps[2].len() == 0 {
            assert(false);
        } else if n >= 3 && ps[0].len() == 0 && ps[1].len() == 0 && tail_groups_ok(ps, 2, n)
            && group_weight(ps, 2, n) <= 7 {
            if 2 <= i < n - 1 {
                assert(is_h16(ps[i]));
                assert(is_hex_byte(ps[i][j]));
            } else if i == n - 1 {
                if is_h16(ps[i]) {
                    assert(is_hex_byte(ps[i][j]));
                } else {
                    lemma_ipv4_ascii(ps[i]);
                }
            }
        } else if n >= 3 && ps[n - 1].len() == 0 && ps[n - 2].len() == 0 && all_h16(ps, 0, n - 2)
            && n - 2 <= 7 {
            assert(is_h16(ps[i]));
            assert(is_hex_byte(ps[i][j]));
        } else {
            let k = choose|k: int|
                0 < k < n - 1 && ps[k].len() == 0 && #[trigger] all_h16(ps, 0, k)
                    && tail_groups_ok(ps, k + 1, n) && k + group_weight(ps, k + 1, n) <= 7;
            if i < k {
                assert(is_h16(ps[i]));
                assert(is_hex_byte(ps[i][j]));
            } else if i == k {
                assert(false);
            } else if i < n - 1 {
                assert(is_h16(ps[i]));
                assert(is_hex_byte(ps[i][j]));
            } else {
                if is_h16(ps[i]) {
                    assert(is_hex_byte(ps[i][j]));
                } else {
                    lemma_ipv4_ascii(ps[i]);
                }
            }
        }
    }
    lemma_split_ascii(s, 58);
}

/// The byte each character of an ASCII text stands for.
pub open spec fn bytes_of(s: Seq<char>) -> Seq<u8> {
    s.map_values(|c: char| c as u8)
}

/// An IPv4 literal given as text: ASCII characters spelling a dotted quad.
pub open spec fn is_ipv4_text(s: Seq<char>) -> bool {
    vstd::utf8::is_ascii_chars(s) && is_ipv4_literal(bytes_of(s))
}

/// An IPv6 literal given as text.
pub open spec fn is_ipv6_text(s: Seq<char>) -> bool {
    vstd::utf8::is_ascii_chars(s) && is_ipv6_literal(bytes_of(s))
}

/// Checks a tunnel IPv4 address handed over as text.
pub fn validate_ipv4_text(s: &str) -> (r: bool)
    ensures
        r == is_ipv4_text(s@),
{
    if !s.is_ascii() {
        return false;
    }
    proof {
        vstd::string::is_ascii_spec_bytes(s);
        assert(s.spec_bytes() =~= bytes_of(s@));
    }
    is_ipv4(s.as_bytes())
}

/// Checks a tunnel IPv6 address handed over as text.
pub fn validate_ipv6_text(s: &str) -> (r: bool)
    ensures
        r == is_ipv6_text(s@),
{
    if !s.is_ascii() {
        return false;
    }
    proof {
        vstd::string::is_ascii_spec_bytes(s);
        assert(s.spec_bytes() =~= bytes_of(s@));
    }
    is_ipv6(s.as_bytes())
}

} // verus!
