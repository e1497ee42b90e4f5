//! Credential hashing, the process clock, and header bookkeeping.
use vstd::prelude::*;
use sha3::Digest;
use crate::text::{hex_char, str_eq, chars_string};
use crate::headers::{lookup, HeaderMap};

verus! {

/// The SHA3-256 digest of a string's bytes; a fixed function of its input.
pub uninterp spec fn sha3_of(s: Seq<char>) -> Seq<u8>;

/// Relies on `sha3::Sha3_256` through `digest::Digest::digest`: a 32-byte
/// digest that depends on the input bytes alone.
#[verifier::external_body]
fn sha3_digest(value: &str) -> (r: Vec<u8>)
    ensures
        r@ == sha3_of(value@),
        r@.len() == 32,
{
    sha3::Sha3_256::digest(value.as_bytes()).to_vec()
}

/// Lowercase hexadecimal rendering of a byte string, two digits per byte.
pub open spec fn hex_of_bytes(b: Seq<u8>) -> Seq<char>
    decreases b.len(),
{
    if b.len() == 0 {
        Seq::empty()
    } else {
        seq![hex_char(b[0] as int / 16), hex_char(b[0] as int % 16)] + hex_of_bytes(b.skip(1))
    }
}

/// The stored digest of a plaintext credential: SHA3-256, written in
/// lowercase hexadecimal.
pub open spec fn digest_of(s: Seq<char>) -> Seq<char> {
    hex_of_bytes(sha3_of(s))
}

/// The lowercase hexadecimal digit character for a value below sixteen.
pub fn hex_char_of(d: u8) -> (r: char)
    requires
        d < 16,
    ensures
        r == hex_char(d as int),
{
    if d == 0 { '0' } else if d == 1 { '1' } else if d == 2 { '2' } else if d == 3 { '3' }
    else if d == 4 { '4' } else if d == 5 { '5' } else if d == 6 { '6' } else if d == 7 { '7' }
    else if d == 8 { '8' } else if d == 9 { '9' } else if d == 10 { 'a' } else if d == 11 { 'b' }
    else if d == 12 { 'c' } else if d == 13 { 'd' } else if d == 14 { 'e' } else { 'f' }
}

proof fn lemma_hex_of_bytes_snoc(b: Seq<u8>, x: u8)
    ensures
        hex_of_bytes(b + seq![x]) == hex_of_bytes(b) + seq![
            hex_char(x as int / 16),
            hex_char(x as int % 16),
        ],
    decreases b.len(),
{
    if b.len() == 0 {
        assert(b + seq![x] =~= seq![x]);
        assert(seq![x].skip(1) =~= Seq::<u8>::empty());
        assert(hex_of_bytes(Seq::<u8>::empty()) =~= Seq::<char>::empty());
        assert(hex_of_bytes(seq![x]) =~= seq![hex_char(x as int / 16), hex_char(x as int % 16)]);
        assert(hex_of_bytes(b + seq![x]) =~= hex_of_bytes(b) + seq![
            hex_char(x as int / 16),
            hex_char(x as int % 16),
        ]);
    } else {
        assert((b + seq![x])[0] == b[0]);
        assert((b + seq![x]).skip(1) =~= b.skip(1) + seq![x]);
        lemma_hex_of_bytes_snoc(b.skip(1), x);
        assert(hex_of_bytes(b + seq![x]) =~= hex_of_bytes(b) + seq![
            hex_char(x as int / 16),
            hex_char(x as int % 16),
        ]);
    }
}

/// Renders bytes as lowercase hexadecimal.
pub fn to_hex(bytes: &Vec<u8>) -> (r: Vec<char>)
    ensures
        r@ == hex_of_bytes(bytes@),
        r@.len() == 2 * bytes@.len(),
{
    let mut out: Vec<char> = Vec::new();
    let mut i: usize = 0;
    while i < bytes.len()
        invariant
            i <= bytes@.len(),
            out@ == hex_of_bytes(bytes@.subrange(0, i as int)),
            out@.len() == 2 * i,
        decreases bytes.len() - i,
    {
        let x = bytes[i];
        out.push(hex_char_of(x / 16));
        out.push(hex_char_of(x % 16));
        proof {
            assert(bytes@.subrange(0, i + 1) =~= bytes@.subrange(0, i as int) + seq![bytes@[i as int]]);
            lemma_hex_of_bytes_snoc(bytes@.subrange(0, i as int), bytes@[i as int]);
        }
        i += 1;
    }
    proof {
        assert(bytes@.subrange(0, bytes@.len() as int) =~= bytes@);
    }
    out
}

/// Hashes a credential string: SHA3-256, rendered as 64 lowercase
/// hexadecimal characters.
pub fn hash(value: &str) -> (r: String)
    ensures
        r@ == digest_of(value@),
        r@.len() == 64,
{
    let digest = sha3_digest(value);
    let hex = to_hex(&digest);
    chars_string(&hex)
}

/// Hashing is deterministic: equal inputs always give equal digests.
pub proof fn lemma_hash_deterministic(a: Seq<char>, b: Seq<char>)
    requires
        a == b,
    ensures
        digest_of(a) == digest_of(b),
{
}

/// Relies on `std::time::SystemTime::now` and
/// `SystemTime::duration_since(UNIX_EPOCH)` with `Duration::as_secs`: the
/// current Unix time in whole seconds, zero on a clock before the epoch.
/// Nothing is promised of the clock.
#[verifier::external_body]
pub fn get_unix_epoch_time() -> u64 {
    std::time::SystemTime::now()
        .duration_since(std::time::UNIX_EPOCH)
        .map(|d| d.as_secs())
        .unwrap_or_default()
}

/// The header names an endpoint requires.
pub open spec fn required_headers(name: Seq<char>) -> Seq<Seq<char>> {
    if name == "create_account"@ {
        seq!["username"@, "displayname"@, "password"@, "email"@]
    } else if name == "login"@ {
        seq!["email"@, "password"@]
    } else if name == "check_jws_token"@ {
        seq!["token"@]
    } else {
        Seq::empty()
    }
}

/// Looks up the header names an endpoint requires; an unknown endpoint
/// requires none.
pub fn get_required_headers(name: &str) -> (r: Vec<String>)
    ensures
        r@.map_values(|x: String| x@) == required_headers(name@),
{
    let mut out: Vec<String> = Vec::new();
    if str_eq(name, "create_account") {
        out.push(String::from_str("username"));
        out.push(String::from_str("displayname"));
        out.push(String::from_str("password"));
        out.push(String::from_str("email"));
    } else if str_eq(name, "login") {
        out.push(String::from_str("email"));
        out.push(String::from_str("password"));
    } else if str_eq(name, "check_jws_token") {
        out.push(String::from_str("token"));
    }
    proof {
        assert(out@.map_values(|x: String| x@) =~= required_headers(name@));
    }
    out
}

/// Fetches the value of every requested header; `None` as soon as one
/// is absent.
pub fn get_headers_checked(headers: &HeaderMap, keys: &Vec<String>) -> (r: Option<Vec<String>>)
    ensures
        (match r {
            Some(vals) => vals@.len() == keys@.len() && forall|i: int|
                0 <= i < keys@.len() ==> lookup(headers@, keys@[i]@) == Some(
                    #[trigger] vals@[i]@,
                ),
            None => exists|i: int|
                0 <= i < keys@.len() && lookup(headers@, #[trigger] keys@[i]@) is None,
        }),
{
    let mut vals: Vec<String> = Vec::new();
    let mut i: usize = 0;
    while i < keys.len()
        invariant
            i <= keys@.len(),
            vals@.len() == i,
            forall|j: int|
                0 <= j < i ==> lookup(headers@, keys@[j]@) == Some(#[trigger] vals@[j]@),
        decreases keys.len() - i,
    {
        match headers.get(keys[i].as_str()) {
            Some(v) => {
                vals.push(v.clone());
            },
            None => {
                return None;
            },
        }
        i += 1;
    }
    Some(vals)
}

} // verus!
