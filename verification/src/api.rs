//! Response payload construction and the read-side endpoints: status
//! messages, profile views, account listings, and image responses.
use vstd::prelude::*;
use std::io::Write;
use vstd::string::StringSliceAdditionalSpecFns;
use crate::text::{esc, escape_into, push_all, render_dec, dec_rep, string_chars, chars_string};
use crate::store::{IdentityStore, UserView, first_with_suid, first_with_username};
use crate::user::{User, SafeUser};
use crate::token::spec_decode;

verus! {

/// The body of a plain status response, as the transport writes it.
pub open spec fn status_json(status: int, message: Seq<char>) -> Seq<char> {
    "{\"status\": "@ + dec_rep(status) + ", \"message\": \""@ + message + "\"}"@
}

/// Renders a status/message pair as JSON. The message is written as it
/// came, unescaped.
pub fn do_json(status: u16, message: &str) -> (r: String)
    ensures
        r@ == status_json(status as int, message@),
{
    let mut out: Vec<char> = Vec::new();
    let l1 = string_chars("{\"status\": ");
    push_all(&mut out, &l1);
    let digits = render_dec(status as usize);
    push_all(&mut out, &digits);
    let l2 = string_chars(", \"message\": \"");
    push_all(&mut out, &l2);
    let msg = string_chars(message);
    push_all(&mut out, &msg);
    let l3 = string_chars("\"}");
    push_all(&mut out, &l3);
    proof {
        assert(out@ =~= status_json(status as int, message@));
    }
    chars_string(&out)
}

/// The JSON text of a safe profile view: username, display name and
/// public id, and nothing else.
pub open spec fn safe_user_json_spec(username: Seq<char>, displayname: Seq<char>, suid: Seq<
    char,
>) -> Seq<char> {
    "{\"username\":\""@ + esc(username) + "\",\"displayname\":\""@ + esc(displayname)
        + "\",\"suid\":\""@ + esc(suid) + "\"}"@
}

/// Renders a safe profile view as JSON.
pub fn safe_user_json(u: &SafeUser) -> (r: String)
    ensures
        r@ == safe_user_json_spec(u.username@, u.displayname@, u.suid@),
{
    let mut out: Vec<char> = Vec::new();
    let l1 = string_chars("{\"username\":\"");
    push_all(&mut out, &l1);
    let f1 = string_chars(u.username.as_str());
    escape_into(&mut out, &f1);
    let l2 = string_chars("\",\"displayname\":\"");
    push_all(&mut out, &l2);
    let f2 = string_chars(u.displayname.as_str());
    escape_into(&mut out, &f2);
    let l3 = string_chars("\",\"suid\":\"");
    push_all(&mut out, &l3);
    let f3 = string_chars(u.suid.as_str());
    escape_into(&mut out, &f3);
    let l4 = string_chars("\"}");
    push_all(&mut out, &l4);
    proof {
        assert(out@ =~= safe_user_json_spec(u.username@, u.displayname@, u.suid@));
    }
    chars_string(&out)
}

/// The JSON text of one full identity record, every field included.
pub open spec fn user_json_spec(u: UserView) -> Seq<char> {
    "{\"username\":\""@ + esc(u.username) + "\",\"displayname\":\""@ + esc(u.displayname)
        + "\",\"password\":\""@ + esc(u.password) + "\",\"email\":\""@ + esc(u.email)
        + "\",\"uid\":\""@ + esc(u.uid) + "\",\"suid\":\""@ + esc(u.suid) + "\"}"@
}

/// Renders one full record as JSON.
pub fn user_json(u: &User) -> (r: String)
    ensures
        r@ == user_json_spec(u@),
{
    let mut out: Vec<char> = Vec::new();
    let l1 = string_chars("{\"username\":\"");
    push_all(&mut out, &l1);
    let f1 = string_chars(u.username.as_str());
    escape_into(&mut out, &f1);
    let l2 = string_chars("\",\"displayname\":\"");
    push_all(&mut out, &l2);
    let f2 = string_chars(u.displayname.as_str());
    escape_into(&mut out, &f2);
    let l3 = string_chars("\",\"password\":\"");
    push_all(&mut out, &l3);
    let f3 = string_chars(u.password.as_str());
    escape_into(&mut out, &f3);
    let l4 = string_chars("\",\"email\":\"");
    push_all(&mut out, &l4);
    let f4 = string_chars(u.email.as_str());
    escape_into(&mut out, &f4);
    let l5 = string_chars("\",\"uid\":\"");
    push_all(&mut out, &l5);
    let f5 = string_chars(u.uid.as_str());
    escape_into(&mut out, &f5);
    let l6 = string_chars("\",\"suid\":\"");
    push_all(&mut out, &l6);
    let f6 = string_chars(u.suid.as_str());
    escape_into(&mut out, &f6);
    let l7 = string_chars("\"}");
    push_all(&mut out, &l7);
    proof {
        assert(out@ =~= user_json_spec(u@));
    }
    chars_string(&out)
}

/// The comma-joined JSON of a run of records.
pub open spec fn users_json_items(s: Seq<UserView>) -> Seq<char>
    decreases s.len(),
{
    if s.len() == 0 {
        Seq::empty()
    } else if s.len() == 1 {
        user_json_spec(s[0])
    } else {
        user_json_spec(s[0]) + seq![','] + users_json_items(s.skip(1))
    }
}

proof fn lemma_items_snoc(a: Seq<UserView>, x: UserView)
    ensures
        users_json_items(a + seq![x]) == if a.len() == 0 {
            user_json_spec(x)
        } else {
            users_json_items(a) + seq![','] + user_json_spec(x)
        },
    decreases a.len(),
{
    if a.len() == 0 {
        assert(a + seq![x] =~= seq![x]);
    } else {
        assert((a + seq![x])[0] == a[0]);
        assert((a + seq![x]).skip(1) =~= a.skip(1) + seq![x]);
        lemma_items_snoc(a.skip(1), x);
        if a.len() == 1 {
            assert(a.skip(1).len() == 0);
            assert(users_json_items(a) == user_json_spec(a[0]));
            assert(users_json_items(a + seq![x]) =~= users_json_items(a) + seq![',']
                + user_json_spec(x));
        } else {
            assert(users_json_items(a + seq![x]) =~= users_json_items(a) + seq![',']
                + user_json_spec(x));
        }
    }
}

/// Renders every stored record as a JSON array, in insertion order, full
/// records included — the unauthenticated listing the debug surface
/// exposes.
pub fn users_json(store: &IdentityStore) -> (r: String)
    ensures
        r@ == seq!['['] + users_json_items(store@) + seq![']'],
{
    let users = store.all();
    let mut out: Vec<char> = Vec::new();
    out.push('[');
    let mut i: usize = 0;
    proof {
        assert(store@.subrange(0, 0) =~= Seq::<UserView>::empty());
        assert(out@ =~= seq!['['] + users_json_items(store@.subrange(0, 0)));
    }
    while i < users.len()
        invariant
            i <= users@.len(),
            users@.map_values(|u: User| u@) == store@,
            store@.len() == users@.len(),
            out@ == seq!['['] + users_json_items(store@.subrange(0, i as int)),
        decreases users.len() - i,
    {
        if i > 0 {
            out.push(',');
        }
        let j = user_json(&users[i]);
        let jv = string_chars(j.as_str());
        push_all(&mut out, &jv);
        proof {
            assert(users@[i as int]@ == store@[i as int]);
            assert(store@.subrange(0, i + 1) =~= store@.subrange(0, i as int) + seq![store@[
                i as int]]);
            lemma_items_snoc(store@.subrange(0, i as int), store@[i as int]);
        }
        i += 1;
    }
    out.push(']');
    proof {
        assert(store@.subrange(0, store@.len() as int) =~= store@);
    }
    chars_string(&out)
}

/// The safe profile view of the record under this public id, if any.
pub fn profile_data_suid(store: &IdentityStore, suid: &str) -> (r: Option<SafeUser>)
    ensures
        (match r {
            Some(p) => first_with_suid(store@, suid@) matches Some(m) && p.username@
                == m.username && p.displayname@ == m.displayname && p.suid@ == m.suid,
            None => first_with_suid(store@, suid@) is None,
        }),
{
    match store.find_by_suid(suid) {
        Some(u) => Some(
            User::to_safe(
                User {
                    username: u.username.clone(),
                    displayname: u.displayname.clone(),
                    password: u.password.clone(),
                    email: u.email.clone(),
                    uid: u.uid.clone(),
                    suid: u.suid.clone(),
                },
            ),
        ),
        None => None,
    }
}

/// The safe profile view of the record under this username, if any.
pub fn profile_data_name(store: &IdentityStore, name: &str) -> (r: Option<SafeUser>)
    ensures
        (match r {
            Some(p) => first_with_username(store@, name@) matches Some(m) && p.username@
                == m.username && p.displayname@ == m.displayname && p.suid@ == m.suid,
            None => first_with_username(store@, name@) is None,
        }),
{
    match store.find_by_username(name) {
        Some(u) => Some(
            User::to_safe(
                User {
                    username: u.username.clone(),
                    displayname: u.displayname.clone(),
                    password: u.password.clone(),
                    email: u.email.clone(),
                    uid: u.uid.clone(),
                    suid: u.suid.clone(),
                },
            ),
        ),
        None => None,
    }
}

/// The body a verified token answers with: the public id it carries.
pub open spec fn suid_json_spec(suid: Seq<char>) -> Seq<char> {
    "{\"suid\":\""@ + suid + "\"}"@
}

/// Validates a token and yields its public-id response body; any
/// verification fault yields nothing.
pub fn check_jws_token(token: &str, secret: &[u8]) -> (r: Option<String>)
    ensures
        r matches Some(j) ==> spec_decode(token@, secret@) is Some && j@ == suid_json_spec(
            spec_decode(token@, secret@).unwrap().2,
        ),
        spec_decode(token@, secret@) is None ==> r is None,
{
    let claims = match User::decode__JWT__token(token, secret) {
        Ok(c) => c,
        Err(_) => {
            return None;
        },
    };
    let mut out: Vec<char> = Vec::new();
    let l1 = string_chars("{\"suid\":\"");
    push_all(&mut out, &l1);
    let sv = string_chars(claims.suid.as_str());
    push_all(&mut out, &sv);
    let l2 = string_chars("\"}");
    push_all(&mut out, &l2);
    proof {
        assert(out@ =~= suid_json_spec(claims.suid@));
    }
    Some(chars_string(&out))
}

/// The path an uploaded profile image is stored under, keyed by the
/// token's public id.
pub fn upload_image_path(suid: &str) -> (r: String)
    ensures
        r@ == "uploads/"@ + suid@ + ".png"@,
{
    let mut out: Vec<char> = Vec::new();
    let l1 = string_chars("uploads/");
    push_all(&mut out, &l1);
    let sv = string_chars(suid);
    push_all(&mut out, &sv);
    let l2 = string_chars(".png");
    push_all(&mut out, &l2);
    proof {
        assert(out@ =~= "uploads/"@ + suid@ + ".png"@);
    }
    chars_string(&out)
}

/// The path a profile image is served from.
pub fn profile_image_path(name: &str) -> (r: String)
    ensures
        r@ == "uploads/"@ + name@ + ".jpg"@,
{
    let mut out: Vec<char> = Vec::new();
    let l1 = string_chars("uploads/");
    push_all(&mut out, &l1);
    let sv = string_chars(name);
    push_all(&mut out, &sv);
    let l2 = string_chars(".jpg");
    push_all(&mut out, &l2);
    proof {
        assert(out@ =~= "uploads/"@ + name@ + ".jpg"@);
    }
    chars_string(&out)
}

/// The image served when a profile has none of its own.
pub fn default_image_path() -> (r: String)
    ensures
        r@ == "static/images/default-user.jpg"@,
{
    String::from_str("static/images/default-user.jpg")
}

/// The chunked transfer coding of a byte string at a chunk size; a fixed
/// function of both.
pub uninterp spec fn chunked_of(data: Seq<u8>, size: int) -> Seq<u8>;

/// Relies on `chunked_transfer::Encoder::with_chunks_size` with
/// `std::io::Write::write_all`: the chunked transfer coding of the bytes,
/// in chunks of sixty-four.
#[verifier::external_body]
fn chunk_encode(data: &Vec<u8>) -> (r: Vec<u8>)
    ensures
        r@ == chunked_of(data@, 64),
{
    let mut encoded = Vec::new();
    {
        let mut encoder = chunked_transfer::Encoder::with_chunks_size(&mut encoded, 64);
        encoder.write_all(data.as_slice()).unwrap_or_default();
    }
    encoded
}

/// The raw HTTP response for an image: fixed headers announcing chunked
/// PNG content, then the chunked body.
pub fn image_response(image: &Vec<u8>) -> (r: Vec<u8>)
    ensures
        r@ == ("HTTP/1.1 200 OK\r\nContent-type: image/png\r\nTransfer-Encoding: chunked\r\n\r\n").spec_bytes()
            + chunked_of(image@, 64),
{
    let mut out: Vec<u8> = Vec::new();
    let hdr: &[u8] = "HTTP/1.1 200 OK\r\nContent-type: image/png\r\nTransfer-Encoding: chunked\r\n\r\n".as_bytes();
    let mut i: usize = 0;
    while i < hdr.len()
        invariant
            i <= hdr@.len(),
            out@ == hdr@.subrange(0, i as int),
        decreases hdr.len() - i,
    {
        out.push(hdr[i]);
        proof {
            assert(hdr@.subrange(0, i + 1) =~= hdr@.subrange(0, i as int) + seq![hdr@[i as int]]);
        }
        i += 1;
    }
    proof {
        assert(hdr@.subrange(0, hdr@.len() as int) =~= hdr@);
    }
    let body = chunk_encode(image);
    let mut j: usize = 0;
    while j < body.len()
        invariant
            j <= body@.len(),
            out@ == hdr@ + body@.subrange(0, j as int),
        decreases body.len() - j,
    {
        out.push(body[j]);
        proof {
            assert(body@.subrange(0, j + 1) =~= body@.subrange(0, j as int) + seq![body@[
                j as int]]);
            assert(out@ =~= hdr@ + body@.subrange(0, j + 1));
        }
        j += 1;
    }
    proof {
        assert(body@.subrange(0, body@.len() as int) =~= body@);
    }
    out
}

} // verus!
