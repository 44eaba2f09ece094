//! Decisions of the conversion service: which map names it accepts, where it
//! caches a conversion, and which status an error answers with.
use vstd::prelude::*;
use crate::names::{ends_with, push_char};

verus! {

/// The port the service listens on unless configured otherwise.
pub fn default_port() -> (r: u16)
    ensures
        r == 3030,
{
    3030
}

/// The name asks for a packed scene: ASCII, without a slash, ending in
/// `.glb`.
pub open spec fn valid_map_name(map: Seq<char>) -> bool {
    &&& forall|i: int| 0 <= i < map.len() ==> (#[trigger] map[i]) as u32 <= 0x7f
    &&& !map.contains('/')
    &&& ends_with(map, ".glb"@)
}

/// The level file to download for the requested scene `map`: its name with
/// `.glb` replaced by `.bsp`; `None` where the name is not valid.
pub fn bsp_name_for(map: &str) -> (r: Option<String>)
    ensures
        valid_map_name(map@) ==> (r matches Some(n) && n@ == map@.subrange(0, map@.len() - 4) + ".bsp"@),
        !valid_map_name(map@) ==> r is None,
{
    proof {
        reveal_strlit(".glb");
        reveal_strlit(".bsp");
    }
    let n = map.unicode_len();
    let mut i: usize = 0;
    while i < n
        invariant
            n == map@.len(),
            i <= n,
            forall|k: int| 0 <= k < i ==> (#[trigger] map@[k]) as u32 <= 0x7f && map@[k] != '/',
        decreases n - i,
    {
        let c = map.get_char(i);
        if c as u32 > 0x7f || c == '/' {
            assert(!valid_map_name(map@)) by {
                if c != '/' {
                    assert(!((map@[i as int]) as u32 <= 0x7f));
                } else {
                    assert(map@[i as int] == '/');
                }
            }
            return None;
        }
        i = i + 1;
    }
    assert(!map@.contains('/'));
    if n < 4 || map.get_char(n - 4) != '.' || map.get_char(n - 3) != 'g' || map.get_char(n - 2) != 'l'
        || map.get_char(n - 1) != 'b' {
        assert(!ends_with(map@, ".glb"@)) by {
            if ends_with(map@, ".glb"@) {
                assert(map@.subrange(n - 4, n as int)[0] == '.');
                assert(map@.subrange(n - 4, n as int)[1] == 'g');
                assert(map@.subrange(n - 4, n as int)[2] == 'l');
                assert(map@.subrange(n - 4, n as int)[3] == 'b');
            }
        }
        return None;
    }
    assert(map@.subrange(n - 4, n as int) =~= ".glb"@);
    let mut r = String::from_str(map.substring_char(0, n - 4));
    r.append(".bsp");
    Some(r)
}

/// The character of a hexadecimal digit, lower case.
pub open spec fn hex_char(d: int) -> char {
    if d < 10 {
        ((d + 48) as u8) as char
    } else {
        ((d + 87) as u8) as char
    }
}

/// The `n` lowest hexadecimal digits of `v`, most significant first.
pub open spec fn hex_digits(v: nat, n: nat) -> Seq<char>
    decreases n,
{
    if n == 0 {
        Seq::empty()
    } else {
        hex_digits(v / 16, (n - 1) as nat).push(hex_char((v % 16) as int))
    }
}

/// Appends the `n` lowest hexadecimal digits of `v`.
fn push_hex_digits(s: &mut String, v: u64, n: u32)
    ensures
        final(s)@ == old(s)@ + hex_digits(v as nat, n as nat),
    decreases n,
{
    if n > 0 {
        push_hex_digits(s, v / 16, n - 1);
        let d = (v % 16) as u8;
        let c = if d < 10 { (d + 48) as char } else { (d + 87) as char };
        push_char(s, c);
        assert(old(s)@ + hex_digits(v as nat, n as nat) =~= old(s)@ + hex_digits((v / 16) as nat, (n - 1) as nat) + seq![c]);
    } else {
        assert(old(s)@ + hex_digits(v as nat, 0) =~= old(s)@);
    }
}

/// The file under which the conversion of `map` with options key `key` is
/// cached: the key as sixteen lower-case hexadecimal digits, `_`, the name.
pub fn cache_file_name(map: &str, key: u64) -> (r: String)
    ensures
        r@ == hex_digits(key as nat, 16) + "_"@ + map@,
{
    let mut r = String::new();
    push_hex_digits(&mut r, key, 16);
    proof {
        reveal_strlit("_");
    }
    r.append("_");
    r.append(map);
    assert(r@ =~= hex_digits(key as nat, 16) + "_"@ + map@);
    r
}

/// What went wrong while serving a request, as far as the answer depends
/// on it.
#[derive(Clone, Copy, Debug, PartialEq, Eq, Structural)]
pub enum FailureKind {
    /// The requested name is not a valid scene name.
    InvalidMapName,
    /// The downloaded file is not a level: its header is wrong.
    NotAMap,
    /// The map server answered with a client error.
    ClientError,
    /// Anything else.
    Other,
}

/// The HTTP status that answers a failure: 422 for an invalid name, 404
/// where the map does not exist, 500 otherwise.
pub fn status_code(kind: FailureKind) -> (r: u16)
    ensures
        r == match kind {
            FailureKind::InvalidMapName => 422u16,
            FailureKind::NotAMap => 404u16,
            FailureKind::ClientError => 404u16,
            FailureKind::Other => 500u16,
        },
{
    match kind {
        FailureKind::InvalidMapName => 422,
        FailureKind::NotAMap => 404,
        FailureKind::ClientError => 404,
        FailureKind::Other => 500,
    }
}

} // verus!
