//! What the WebSocket transport needs decided: which peers speak the protocol.

use vstd::prelude::*;

verus! {

/// The subprotocol token, in lower case: `networktables`.
pub open spec fn token() -> Seq<u8> {
    seq![
        0x6eu8,
        0x65u8,
        0x74u8,
        0x77u8,
        0x6fu8,
        0x72u8,
        0x6bu8,
        0x74u8,
        0x61u8,
        0x62u8,
        0x6cu8,
        0x65u8,
        0x73u8,
    ]
}

/// The byte in lower case, where it is an ASCII capital; else the byte itself.
pub open spec fn lower(b: u8) -> u8 {
    if 0x41 <= b <= 0x5a {
        (b + 0x20) as u8
    } else {
        b
    }
}

/// The token stands in `s` at `i`, in whatever case.
pub open spec fn token_at(s: Seq<u8>, i: int) -> bool {
    0 <= i && i + token().len() <= s.len() && forall|j: int|
        0 <= j < token().len() ==> lower(#[trigger] s[i + j]) == token()[j]
}

/// The header value offers the subprotocol: the token stands in it somewhere.
pub open spec fn offers_protocol(s: Seq<u8>) -> bool {
    exists|i: int| token_at(s, i)
}

/// The byte in lower case, where it is an ASCII capital.
pub fn to_lower(b: u8) -> (r: u8)
    ensures
        r == lower(b),
{
    if 0x41 <= b && b <= 0x5a {
        b + 0x20
    } else {
        b
    }
}

fn token_byte(j: usize) -> (b: u8)
    requires
        j < 13,
    ensures
        b == token()[j as int],
{
    let bytes: [u8; 13] = [
        0x6e,
        0x65,
        0x74,
        0x77,
        0x6f,
        0x72,
        0x6b,
        0x74,
        0x61,
        0x62,
        0x6c,
        0x65,
        0x73,
    ];
    bytes[j]
}

fn matches_at(value: &[u8], i: usize) -> (b: bool)
    requires
        i + 13 <= value@.len(),
    ensures
        b == token_at(value@, i as int),
{
    let n: usize = value.len();
    let mut j: usize = 0;
    while j < 13
        invariant
            j <= 13,
            n == value@.len(),
            i + 13 <= value@.len(),
            forall|k: int| 0 <= k < j ==> lower(#[trigger] value@[i + k]) == token()[k],
        decreases 13 - j,
    {
        if to_lower(value[i + j]) != token_byte(j) {
            assert(lower(value@[i + j]) != token()[j as int]);
            return false;
        }
        j += 1;
    }
    true
}

/// Decides on the upgrade request of a WebSocket peer.
#[derive(Clone, Copy, Debug)]
pub struct ServerHeaderCallback;

impl ServerHeaderCallback {
    /// Whether a peer that offers the subprotocol header `value` is accepted: the header must
    /// contain `networktables`, in whatever case. A peer without the header offers the empty
    /// value and is refused.
    pub fn accepts(&self, value: &[u8]) -> (b: bool)
        ensures
            b == offers_protocol(value@),
    {
        if value.len() < 13 {
            assert forall|i: int| !token_at(value@, i) by {}
            return false;
        }
        let n: usize = value.len();
        let last: usize = n - 13;
        let mut i: usize = 0;
        while i <= last
            invariant
                i <= last + 1,
                n == value@.len(),
                last + 13 == value@.len(),
                forall|k: int| 0 <= k < i ==> !token_at(value@, k),
            decreases last + 1 - i,
        {
            if matches_at(value, i) {
                return true;
            }
            i += 1;
        }
        assert forall|k: int| !token_at(value@, k) by {}
        false
    }
}

/// `needle` stands in `s` at `i`, byte for byte.
pub open spec fn stands_at(s: Seq<u8>, needle: Seq<u8>, i: int) -> bool {
    0 <= i && i + needle.len() <= s.len() && forall|j: int|
        0 <= j < needle.len() ==> #[trigger] s[i + j] == needle[j]
}

/// `needle` stands in `s` somewhere.
pub open spec fn holds(s: Seq<u8>, needle: Seq<u8>) -> bool {
    exists|i: int| stands_at(s, needle, i)
}

fn found_at(value: &[u8], needle: &[u8], i: usize) -> (b: bool)
    requires
        i + needle@.len() <= value@.len(),
    ensures
        b == stands_at(value@, needle@, i as int),
{
    let n: usize = needle.len();
    let whole: usize = value.len();
    let mut j: usize = 0;
    while j < n
        invariant
            j <= n,
            n == needle@.len(),
            i + n <= value@.len(),
            whole == value@.len(),
            forall|k: int| 0 <= k < j ==> #[trigger] value@[i + k] == needle@[k],
        decreases n - j,
    {
        if value[i + j] != needle[j] {
            assert(value@[i + j] != needle@[j as int]);
            return false;
        }
        j += 1;
    }
    true
}

/// Whether `needle` stands somewhere in `value`, byte for byte.
pub fn contains(value: &[u8], needle: &[u8]) -> (b: bool)
    ensures
        b == holds(value@, needle@),
{
    if value.len() < needle.len() {
        assert forall|i: int| !stands_at(value@, needle@, i) by {}
        return false;
    }
    let n: usize = value.len();
    let last: usize = n - needle.len();
    let mut i: usize = 0;
    while i <= last
        invariant
            i <= last + 1,
            n == value@.len(),
            last + needle@.len() == value@.len(),
            forall|k: int| 0 <= k < i ==> !stands_at(value@, needle@, k),
        decreases last + 1 - i,
    {
        if found_at(value, needle, i) {
            return true;
        }
        i += 1;
    }
    assert forall|k: int| !stands_at(value@, needle@, k) by {}
    false
}

/// The name of the subprotocol of revision 4: `networktables.first.wpi.edu`.
pub open spec fn name_v4() -> Seq<u8> {
    seq![
        0x6eu8,
        0x65u8,
        0x74u8,
        0x77u8,
        0x6fu8,
        0x72u8,
        0x6bu8,
        0x74u8,
        0x61u8,
        0x62u8,
        0x6cu8,
        0x65u8,
        0x73u8,
        0x2eu8,
        0x66u8,
        0x69u8,
        0x72u8,
        0x73u8,
        0x74u8,
        0x2eu8,
        0x77u8,
        0x70u8,
        0x69u8,
        0x2eu8,
        0x65u8,
        0x64u8,
        0x75u8,
    ]
}

/// Whether a peer that offers the subprotocol header `value` speaks revision 4: the header
/// must contain the name of the subprotocol, letter for letter.
pub fn offers_v4(value: &[u8]) -> (b: bool)
    ensures
        b == holds(value@, name_v4()),
{
    let name: [u8; 27] = [
        0x6e,
        0x65,
        0x74,
        0x77,
        0x6f,
        0x72,
        0x6b,
        0x74,
        0x61,
        0x62,
        0x6c,
        0x65,
        0x73,
        0x2e,
        0x66,
        0x69,
        0x72,
        0x73,
        0x74,
        0x2e,
        0x77,
        0x70,
        0x69,
        0x2e,
        0x65,
        0x64,
        0x75,
    ];
    assert(name@ =~= name_v4());
    contains(value, name.as_slice())
}

/// Whether the first bytes of a connection are the start of an HTTP upgrade request, which a
/// WebSocket peer sends and a peer on raw TCP does not: the bytes `GET`.
pub fn is_websocket_request(first: &[u8]) -> (b: bool)
    ensures
        b == (first@.len() >= 3 && first@[0] == 0x47 && first@[1] == 0x45 && first@[2] == 0x54),
{
    first.len() >= 3 && first[0] == 0x47 && first[1] == 0x45 && first[2] == 0x54
}

} // verus!
