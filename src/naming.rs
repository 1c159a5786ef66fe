use vstd::prelude::*;
use vstd::utf8::{decode_utf8, valid_utf8};

verus! {

/// The byte that separates the parts of a path.
pub const SLASH: u8 = 47;

/// The name a received file gets when the announced name is not valid text.
pub open spec fn default_name() -> Seq<char> {
    "received_file"@
}

/// The name under which a receiver stores a file announced as `name`.
pub open spec fn stored_name(name: Seq<u8>) -> Seq<char> {
    if valid_utf8(name) {
        decode_utf8(name)
    } else {
        default_name()
    }
}

/// Relies on `String::from_utf8`: it succeeds exactly on valid UTF-8, and the
/// string then holds the characters those bytes encode.
#[verifier::external_body]
fn utf8_string(bytes: Vec<u8>) -> (r: Option<String>)
    ensures
        r is Some <==> valid_utf8(bytes@),
        r matches Some(s) ==> s@ == decode_utf8(bytes@),
{
    String::from_utf8(bytes).ok()
}

/// The name to store a file under, given what decoding its announced name
/// gave: the decoded text, or the fallback name when there was none.
pub fn name_or_default(decoded: Option<String>) -> (r: String)
    ensures
        r@ == match decoded {
            Some(s) => s@,
            None => default_name(),
        },
{
    match decoded {
        Some(s) => s,
        None => {
            proof {
                reveal_strlit("received_file");
            }
            "received_file".to_owned()
        },
    }
}

/// The name under which a file announced as `name` is stored; bytes that are
/// not valid text give the fallback name rather than an error.
pub fn file_name_for(name: Vec<u8>) -> (r: String)
    ensures
        r@ == stored_name(name@),
{
    name_or_default(utf8_string(name))
}

/// No byte of `s` is a path separator.
pub open spec fn no_slash(s: Seq<u8>) -> bool {
    forall|i: int| 0 <= i < s.len() ==> s[i] != SLASH
}

/// The last part of `path`: what follows its last separator, or the whole
/// path when it has none.
pub fn base_name(path: &[u8]) -> (r: Vec<u8>)
    ensures
        exists|j: int|
            0 <= j <= path@.len() && r@ == path@.subrange(j, path@.len() as int) && (j == 0
                || path@[j - 1] == SLASH),
        no_slash(r@),
{
    let mut j: usize = path.len();
    while j > 0 && path[j - 1] != SLASH
        invariant
            j <= path@.len(),
            no_slash(path@.subrange(j as int, path@.len() as int)),
        decreases j,
    {
        assert(path@.subrange(j - 1, path@.len() as int) =~= seq![path@[j - 1]]
            + path@.subrange(j as int, path@.len() as int));
        j = j - 1;
    }
    vstd::slice::slice_to_vec(vstd::slice::slice_subrange(path, j, path.len()))
}

/// The scheme that an address may carry before `host:port`.
pub open spec fn scheme() -> Seq<u8> {
    seq![116u8, 99u8, 112u8, 58u8, 47u8, 47u8]
}

/// Length of the `tcp://` scheme at the start of `address`, or 0 when it
/// does not start with it; what follows is the address to connect to.
pub fn scheme_len(address: &[u8]) -> (r: usize)
    ensures
        r == if address@.len() >= 6 && address@.subrange(0, 6) == scheme() {
            6usize
        } else {
            0usize
        },
{
    if address.len() < 6 {
        return 0;
    }
    let b = address;
    if b[0] == 116 && b[1] == 99 && b[2] == 112 && b[3] == 58 && b[4] == 47 && b[5] == 47 {
        assert(address@.subrange(0, 6) =~= scheme());
        6
    } else {
        proof {
            let p = address@.subrange(0, 6);
            if p == scheme() {
                assert(p[0] == b[0] && p[1] == b[1] && p[2] == b[2]);
                assert(p[3] == b[3] && p[4] == b[4] && p[5] == b[5]);
            }
        }
        0
    }
}

} // verus!
