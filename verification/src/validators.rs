//! Syntactic validation of externally supplied peer data.
//!
//! Every value that the command compiler interpolates into a
//! configuration-shell transaction must first pass one of these checks, so
//! that no shell metacharacter can reach the router through a peer name,
//! identifier or key.

use base64::Engine;
use vstd::prelude::*;
use vstd::string::StringSliceAdditionalSpecFns;

verus! {

/// Error returned when a candidate WireGuard key is rejected.
#[derive(Clone, Copy, Debug, PartialEq, Eq, Structural)]
pub struct InvalidKey;

pub open spec fn is_upper(c: char) -> bool {
    'A' <= c && c <= 'Z'
}

pub open spec fn is_lower(c: char) -> bool {
    'a' <= c && c <= 'z'
}

pub open spec fn is_digit(c: char) -> bool {
    '0' <= c && c <= '9'
}

/// Characters allowed in the free-form device token of an identifier.
pub open spec fn is_device_char(c: char) -> bool {
    is_upper(c) || is_lower(c) || is_digit(c)
}

/// An owner-name token: one to 33 uppercase letters. The length bound
/// keeps every derived identifier (two names, a device token and two
/// hyphens) within the router's 100-character label limit.
pub open spec fn valid_name(s: Seq<char>) -> bool {
    &&& 1 <= s.len() <= 33
    &&& forall|k: int| 0 <= k < s.len() ==> is_upper(#[trigger] s[k])
}

/// A device token: one to 32 alphanumeric characters.
pub open spec fn valid_device_id(s: Seq<char>) -> bool {
    &&& 1 <= s.len() <= 32
    &&& forall|k: int| 0 <= k < s.len() ==> is_device_char(#[trigger] s[k])
}

/// A decomposition of `s` as `UPPER+ "-" UPPER+ "-" DEVICE{1,32}` with the
/// two hyphens at positions `i` and `j`.
pub open spec fn identifier_split(s: Seq<char>, i: int, j: int) -> bool {
    &&& 0 < i
    &&& i + 1 < j
    &&& j + 1 < s.len()
    &&& s.len() <= j + 33
    &&& s.len() <= 100
    &&& s[i] == '-'
    &&& s[j] == '-'
    &&& forall|k: int| 0 <= k < i ==> is_upper(#[trigger] s[k])
    &&& forall|k: int| i < k < j ==> is_upper(#[trigger] s[k])
    &&& forall|k: int| j < k < s.len() ==> is_device_char(#[trigger] s[k])
}

/// The peer-identifier grammar: two uppercase-letter tokens and a free-form
/// alphanumeric device token of at most 32 characters, joined by hyphens,
/// at most 100 characters overall (the router's label limit).
pub open spec fn valid_identifier(s: Seq<char>) -> bool {
    exists|i: int, j: int| identifier_split(s, i, j)
}

/// A character of the standard base64 alphabet.
pub open spec fn is_base64_char(c: char) -> bool {
    is_upper(c) || is_lower(c) || is_digit(c) || c == '+' || c == '/'
}

/// The index of a character in the standard base64 alphabet
/// (`A`..`Z`, `a`..`z`, `0`..`9`, `+`, `/`).
pub open spec fn base64_val(c: char) -> int {
    if is_upper(c) {
        c as u32 - 65
    } else if is_lower(c) {
        c as u32 - 97 + 26
    } else if is_digit(c) {
        c as u32 - 48 + 52
    } else if c == '+' {
        62
    } else {
        63
    }
}

/// The shape of an encoded 32-byte key: 43 base64 symbols and one `=`.
pub open spec fn key_shape(s: Seq<char>) -> bool {
    &&& s.len() == 44
    &&& s[43] == '='
    &&& forall|k: int| 0 <= k < 43 ==> is_base64_char(#[trigger] s[k])
}

/// A well-formed key: correctly shaped and canonically decodable. 43
/// symbols carry 258 bits while 32 bytes need 256, so the last symbol's
/// two trailing bits must be zero for the string to decode.
pub open spec fn valid_key(s: Seq<char>) -> bool {
    key_shape(s) && base64_val(s[42]) % 4 == 0
}

/// Relies on base64's `Engine::decode` with the `STANDARD` engine: it
/// accepts exactly the canonically padded strings over the standard
/// alphabet whose final symbol leaves no residual bits, and a 44-character
/// padded input decodes to 32 bytes.
#[verifier::external_body]
fn decode_standard_base64(s: &str) -> (r: Option<Vec<u8>>)
    ensures
        key_shape(s@) ==> (r is Some <==> base64_val(s@[42]) % 4 == 0),
        key_shape(s@) && r is Some ==> r->0@.len() == 32,
{
    base64::engine::general_purpose::STANDARD.decode(s).ok()
}

/// Checks that every character of `s` is an uppercase letter, there are
/// between one and 33 of them, and nothing else: the owner-name grammar.
pub fn validate_name(input: &str) -> (r: bool)
    ensures
        r == valid_name(input@),
{
    if !input.is_ascii() {
        proof {
            ascii_of_valid_name(input@);
        }
        return false;
    }
    proof {
        vstd::string::is_ascii_spec_bytes(input);
    }
    let n: usize = input.unicode_len();
    if n < 1 || n > 33 {
        return false;
    }
    let mut k: usize = 0;
    while k < n
        invariant
            input.is_ascii(),
            n == input@.len(),
            k <= n,
            forall|t: int| 0 <= t < k ==> is_upper(#[trigger] input@[t]),
        decreases n - k,
    {
        let b: u8 = input.get_ascii(k);
        if b < 65 || b > 90 {
            return false;
        }
        k += 1;
    }
    true
}

/// Checks the device-token grammar: one to 32 ASCII alphanumerics.
pub fn validate_device_id(input: &str) -> (r: bool)
    ensures
        r == valid_device_id(input@),
{
    if !input.is_ascii() {
        proof {
            ascii_of_valid_device_id(input@);
        }
        return false;
    }
    proof {
        vstd::string::is_ascii_spec_bytes(input);
    }
    let n: usize = input.unicode_len();
    if n < 1 || n > 32 {
        return false;
    }
    let mut k: usize = 0;
    while k < n
        invariant
            input.is_ascii(),
            n == input@.len(),
            k <= n,
            forall|t: int| 0 <= t < k ==> is_device_char(#[trigger] input@[t]),
        decreases n - k,
    {
        let b: u8 = input.get_ascii(k);
        if !(b >= 65 && b <= 90 || b >= 97 && b <= 122 || b >= 48 && b <= 57) {
            return false;
        }
        k += 1;
    }
    true
}

/// Checks a derived peer identifier against the identifier grammar:
/// `UPPER+ "-" UPPER+ "-" [A-Za-z0-9]{1,32}`, at most 100 characters.
pub fn validate_identifier(input: &str) -> (r: bool)
    ensures
        r == valid_identifier(input@),
{
    let ghost s = input@;
    if !input.is_ascii() {
        proof {
            ascii_of_valid_identifier(s);
        }
        return false;
    }
    proof {
        vstd::string::is_ascii_spec_bytes(input);
    }
    let n: usize = input.unicode_len();
    if n > 100 {
        return false;
    }
    // First token: uppercase letters up to the first hyphen.
    let mut i: usize = 0;
    while i < n && input.get_ascii(i) != 45
        invariant
            s == input@,
            input.is_ascii(),
            n == s.len(),
            n <= 100,
            i <= n,
            forall|t: int| 0 <= t < i ==> is_upper(#[trigger] s[t]),
        decreases n - i,
    {
        let b: u8 = input.get_ascii(i);
        if b < 65 || b > 90 {
            proof {
                no_split_hyphenless(s, i as int);
            }
            return false;
        }
        i += 1;
    }
    if i == 0 || i >= n {
        proof {
            if valid_identifier(s) {
                let (i0, j0): (int, int) = choose|i0: int, j0: int| identifier_split(s, i0, j0);
                assert(is_upper(s[i0]) || i0 == i);
            }
        }
        return false;
    }
    // Second token: uppercase letters up to the second hyphen.
    let mut j: usize = i + 1;
    while j < n && input.get_ascii(j) != 45
        invariant
            s == input@,
            input.is_ascii(),
            n == s.len(),
            n <= 100,
            0 < i < j <= n,
            s[i as int] == '-',
            forall|t: int| 0 <= t < i ==> is_upper(#[trigger] s[t]),
            forall|t: int| i < t < j ==> is_upper(#[trigger] s[t]),
        decreases n - j,
    {
        let b: u8 = input.get_ascii(j);
        if b < 65 || b > 90 {
            proof {
                no_split_second_token(s, i as int, j as int);
            }
            return false;
        }
        j += 1;
    }
    if j == i + 1 || j >= n {
        proof {
            if valid_identifier(s) {
                let (i0, j0): (int, int) = choose|i0: int, j0: int| identifier_split(s, i0, j0);
                if j >= n {
                    assert(is_upper(s[j0]));
                } else {
                    split_positions_forced(s, i as int, j as int, i0, j0);
                }
            }
        }
        return false;
    }
    // Device token: one to 32 alphanumerics after the second hyphen.
    if n - j - 1 < 1 || n - j - 1 > 32 {
        proof {
            if valid_identifier(s) {
                let (i0, j0): (int, int) = choose|i0: int, j0: int| identifier_split(s, i0, j0);
                split_positions_forced(s, i as int, j as int, i0, j0);
            }
        }
        return false;
    }
    let mut k: usize = j + 1;
    while k < n
        invariant
            s == input@,
            input.is_ascii(),
            n == s.len(),
            n <= 100,
            0 < i,
            i + 1 < j,
            j + 1 < n,
            n <= j + 33,
            s[i as int] == '-',
            s[j as int] == '-',
            j < k <= n,
            forall|t: int| 0 <= t < i ==> is_upper(#[trigger] s[t]),
            forall|t: int| i < t < j ==> is_upper(#[trigger] s[t]),
            forall|t: int| j < t < k ==> is_device_char(#[trigger] s[t]),
        decreases n - k,
    {
        let b: u8 = input.get_ascii(k);
        if !(b >= 65 && b <= 90 || b >= 97 && b <= 122 || b >= 48 && b <= 57) {
            proof {
                if valid_identifier(s) {
                    let (i0, j0): (int, int) = choose|i0: int, j0: int| identifier_split(s, i0, j0);
                    split_positions_forced(s, i as int, j as int, i0, j0);
                    assert(is_device_char(s[k as int]));
                }
            }
            return false;
        }
        k += 1;
    }
    proof {
        assert(identifier_split(s, i as int, j as int));
    }
    true
}

/// Checks a candidate key: exactly 43 standard-base64 symbols and a
/// trailing `=`, and canonically decodable as 32 bytes.
pub fn validate_key(input: &str) -> (r: Result<(), InvalidKey>)
    ensures
        r is Ok <==> valid_key(input@),
{
    let ghost s = input@;
    if !input.is_ascii() {
        proof {
            ascii_of_key_shape(s);
        }
        return Err(InvalidKey);
    }
    proof {
        vstd::string::is_ascii_spec_bytes(input);
    }
    let n: usize = input.unicode_len();
    if n != 44 {
        return Err(InvalidKey);
    }
    let mut k: usize = 0;
    while k < 43
        invariant
            s == input@,
            input.is_ascii(),
            n == s.len(),
            n == 44,
            k <= 43,
            forall|t: int| 0 <= t < k ==> is_base64_char(#[trigger] s[t]),
        decreases 43 - k,
    {
        let b: u8 = input.get_ascii(k);
        if !(b >= 65 && b <= 90 || b >= 97 && b <= 122 || b >= 48 && b <= 57 || b == 43 || b == 47)
        {
            return Err(InvalidKey);
        }
        k += 1;
    }
    if input.get_ascii(43) != 61 {
        return Err(InvalidKey);
    }
    assert(key_shape(s));
    match decode_standard_base64(input) {
        Some(_) => Ok(()),
        None => Err(InvalidKey),
    }
}

/// In a valid split, the hyphen positions are exactly the first and second
/// hyphens of the string; scanning finds them deterministically.
proof fn split_positions_forced(s: Seq<char>, i: int, j: int, i0: int, j0: int)
    requires
        identifier_split(s, i0, j0),
        0 < i < s.len(),
        s[i] == '-',
        forall|t: int| 0 <= t < i ==> is_upper(#[trigger] s[t]),
        i < j < s.len(),
        s[j] == '-',
        forall|t: int| i < t < j ==> is_upper(#[trigger] s[t]),
    ensures
        i0 == i,
        j0 == j,
{
    assert(!is_upper('-'));
    if i0 < i {
        assert(is_upper(s[i0]));
        assert(false);
    }
    if i0 > i {
        assert(is_upper(s[i]));
        assert(false);
    }
    if j0 < j {
        assert(is_upper(s[j0]));
        assert(false);
    }
    if j0 > j {
        assert(is_upper(s[j]));
        assert(false);
    }
}

/// If the scan of the first token hits a character that is neither an
/// uppercase letter nor a hyphen, no valid split exists.
proof fn no_split_hyphenless(s: Seq<char>, i: int)
    requires
        0 <= i < s.len(),
        s[i] != '-',
        !is_upper(s[i]),
        forall|t: int| 0 <= t < i ==> is_upper(#[trigger] s[t]),
    ensures
        !valid_identifier(s),
{
    assert(!is_upper('-'));
    if valid_identifier(s) {
        let (i0, j0): (int, int) = choose|i0: int, j0: int| identifier_split(s, i0, j0);
        if i0 < i {
            assert(is_upper(s[i0]));
        } else if i0 == i {
            assert(s[i] == '-');
        } else {
            assert(is_upper(s[i]));
        }
        assert(false);
    }
}

/// Likewise for the scan of the second token.
proof fn no_split_second_token(s: Seq<char>, i: int, j: int)
    requires
        0 < i < j < s.len(),
        s[i] == '-',
        s[j] != '-',
        !is_upper(s[j]),
        forall|t: int| 0 <= t < i ==> is_upper(#[trigger] s[t]),
        forall|t: int| i < t < j ==> is_upper(#[trigger] s[t]),
    ensures
        !valid_identifier(s),
{
    assert(!is_upper('-'));
    if valid_identifier(s) {
        let (i0, j0): (int, int) = choose|i0: int, j0: int| identifier_split(s, i0, j0);
        if i0 < i {
            assert(is_upper(s[i0]));
            assert(false);
        }
        if i0 > i {
            assert(is_upper(s[i]));
            assert(false);
        }
        if j0 < j {
            assert(is_upper(s[j0]));
        } else if j0 == j {
            assert(s[j] == '-');
        } else {
            assert(is_upper(s[j]));
        }
        assert(false);
    }
}

/// Every character of a valid identifier is ASCII.
pub proof fn lemma_valid_identifier_ascii(s: Seq<char>)
    requires
        valid_identifier(s),
    ensures
        vstd::utf8::is_ascii_chars(s),
{
    let (i0, j0): (int, int) = choose|i0: int, j0: int| identifier_split(s, i0, j0);
    assert forall|k: int| 0 <= k < s.len() implies '\0' <= #[trigger] s[k] <= '\u{7f}' by {
        if k < i0 {
            assert(is_upper(s[k]));
        } else if k == i0 || k == j0 {
            assert(s[k] == '-');
        } else if k < j0 {
            assert(is_upper(s[k]));
        } else {
            assert(is_device_char(s[k]));
        }
    }
}

proof fn ascii_of_valid_identifier(s: Seq<char>)
    requires
        !vstd::utf8::is_ascii_chars(s),
    ensures
        !valid_identifier(s),
{
    if valid_identifier(s) {
        lemma_valid_identifier_ascii(s);
    }
}

proof fn ascii_of_key_shape(s: Seq<char>)
    requires
        !vstd::utf8::is_ascii_chars(s),
    ensures
        !valid_key(s),
{
    if key_shape(s) {
        assert forall|k: int| 0 <= k < s.len() implies '\0' <= #[trigger] s[k] <= '\u{7f}' by {
            if k < 43 {
                assert(is_base64_char(s[k]));
            } else {
                assert(s[k] == '=');
            }
        }
    }
}

proof fn ascii_of_valid_name(s: Seq<char>)
    requires
        !vstd::utf8::is_ascii_chars(s),
    ensures
        !valid_name(s),
{
    if valid_name(s) {
        assert forall|k: int| 0 <= k < s.len() implies '\0' <= #[trigger] s[k] <= '\u{7f}' by {
            assert(is_upper(s[k]));
        }
    }
}

proof fn ascii_of_valid_device_id(s: Seq<char>)
    requires
        !vstd::utf8::is_ascii_chars(s),
    ensures
        !valid_device_id(s),
{
    if valid_device_id(s) {
        assert forall|k: int| 0 <= k < s.len() implies '\0' <= #[trigger] s[k] <= '\u{7f}' by {
            assert(is_device_char(s[k]));
        }
    }
}

} // verus!
