//! Signed, time-bound identity tokens: claims serialization, signing,
//! and verification.
use vstd::prelude::*;
use base64::Engine;
use crate::text::{
    esc, ctrl_free, scan_str, scan_chars, is_prefix, has_prefix_at, push_all, escape_into,
    render_dec, parse_dec, parse_dec_chars, dec_rep, lemma_scan_esc, lemma_parse_dec_rep,
    lemma_dec_rep_digits, string_chars, chars_string, str_eq, first_idx_of, lemma_first_idx_at,
    lemma_first_idx_none, lemma_first_found, copy_range,
};
use crate::user::UserClaims;

verus! {

/// The base64url (no padding) signature text that HMAC-SHA256 produces for a
/// message under a secret; a fixed function of both.
pub uninterp spec fn sig_of(msg: Seq<char>, secret: Seq<u8>) -> Seq<char>;

/// What base64url (no padding) decoding, read back as UTF-8 text, yields for
/// an input; a fixed function of it, `None` where the input is not canonical
/// base64url or not UTF-8.
pub uninterp spec fn b64url_rev(s: Seq<char>) -> Option<Seq<char>>;

/// Relies on `jsonwebtoken::crypto::sign` with `EncodingKey::from_secret`
/// under `Algorithm::HS256`: the base64url HMAC-SHA256 signature of the
/// message bytes, which depends on message and secret alone; its alphabet
/// holds no dot. The HMAC path of `sign` does not fail.
#[verifier::external_body]
fn sign_hs256(message: &str, secret: &[u8]) -> (r: String)
    ensures
        r@ == sig_of(message@, secret@),
        forall|i: int| 0 <= i < r@.len() ==> r@[i] != '.',
{
    jsonwebtoken::crypto::sign(
        message.as_bytes(),
        &jsonwebtoken::EncodingKey::from_secret(secret),
        jsonwebtoken::Algorithm::HS256,
    ).unwrap()
}

/// Relies on `jsonwebtoken::crypto::verify` with `DecodingKey::from_secret`
/// under `Algorithm::HS256`: it recomputes the HMAC-SHA256 signature of the
/// message and compares, so it accepts exactly the text `sign` produces.
#[verifier::external_body]
fn verify_hs256(signature: &str, message: &str, secret: &[u8]) -> (r: bool)
    ensures
        r == (signature@ == sig_of(message@, secret@)),
{
    jsonwebtoken::crypto::verify(
        signature,
        message.as_bytes(),
        &jsonwebtoken::DecodingKey::from_secret(secret),
        jsonwebtoken::Algorithm::HS256,
    ).unwrap_or(false)
}

/// Relies on `base64::engine::general_purpose::URL_SAFE_NO_PAD.encode`:
/// base64url without padding, over an alphabet with no dot; decoding the
/// result gives back the input.
#[verifier::external_body]
fn b64url_encode(s: &str) -> (r: String)
    ensures
        b64url_rev(r@) == Some(s@),
        forall|i: int| 0 <= i < r@.len() ==> r@[i] != '.',
{
    base64::engine::general_purpose::URL_SAFE_NO_PAD.encode(s.as_bytes())
}

/// Relies on `base64::engine::general_purpose::URL_SAFE_NO_PAD.decode` and
/// `String::from_utf8`: yields exactly what `b64url_rev` names.
#[verifier::external_body]
fn b64url_decode(s: &str) -> (r: Option<String>)
    ensures
        (match r {
            Some(v) => b64url_rev(s@) == Some(v@),
            None => b64url_rev(s@) is None,
        }),
{
    match base64::engine::general_purpose::URL_SAFE_NO_PAD.decode(s.as_bytes()) {
        Ok(b) => String::from_utf8(b).ok(),
        Err(_) => None,
    }
}

// ---------------------------------------------------------------------------
// Claims serialization
// ---------------------------------------------------------------------------

pub open spec fn lit_username() -> Seq<char> {
    "{\"username\":\""@
}

pub open spec fn lit_uid() -> Seq<char> {
    ",\"uid\":\""@
}

pub open spec fn lit_suid() -> Seq<char> {
    ",\"suid\":\""@
}

pub open spec fn lit_exp() -> Seq<char> {
    ",\"exp\":"@
}

/// The JSON text of a claims value, fields in a fixed order.
pub open spec fn claims_json(u: Seq<char>, uid: Seq<char>, suid: Seq<char>, exp: int) -> Seq<
    char,
> {
    lit_username() + esc(u) + seq!['"'] + lit_uid() + esc(uid) + seq!['"'] + lit_suid() + esc(suid)
        + seq!['"'] + lit_exp() + dec_rep(exp) + seq!['}']
}

/// What the strict claims parser reads out of a JSON text.
pub open spec fn parse_claims(s: Seq<char>) -> Option<(Seq<char>, Seq<char>, Seq<char>, int)> {
    if !is_prefix(lit_username(), s) {
        None
    } else {
        match scan_str(s.skip(lit_username().len() as int)) {
            None => None,
            Some((u, r1)) => if !is_prefix(lit_uid(), r1) {
                None
            } else {
                match scan_str(r1.skip(lit_uid().len() as int)) {
                    None => None,
                    Some((uid, r2)) => if !is_prefix(lit_suid(), r2) {
                        None
                    } else {
                        match scan_str(r2.skip(lit_suid().len() as int)) {
                            None => None,
                            Some((suid, r3)) => if !is_prefix(lit_exp(), r3) {
                                None
                            } else {
                                let digits = r3.skip(lit_exp().len() as int);
                                if digits.len() < 2 || digits.last() != '}' {
                                    None
                                } else {
                                    match parse_dec(digits.drop_last(), 0) {
                                        Some(v) => Some((u, uid, suid, v)),
                                        None => None,
                                    }
                                }
                            },
                        }
                    },
                }
            },
        }
    }
}

/// Parsing inverts rendering, for fields free of control characters.
#[verifier::rlimit(100)]
pub proof fn lemma_parse_claims_json(u: Seq<char>, uid: Seq<char>, suid: Seq<char>, exp: int)
    requires
        ctrl_free(u),
        ctrl_free(uid),
        ctrl_free(suid),
        0 <= exp <= usize::MAX,
    ensures
        parse_claims(claims_json(u, uid, suid, exp)) == Some((u, uid, suid, exp)),
{
    let s = claims_json(u, uid, suid, exp);
    let t1 = esc(u) + seq!['"'] + (lit_uid() + esc(uid) + seq!['"'] + lit_suid() + esc(suid)
        + seq!['"'] + lit_exp() + dec_rep(exp) + seq!['}']);
    assert(s =~= lit_username() + t1);
    assert(is_prefix(lit_username(), s)) by {
        assert(s.subrange(0, lit_username().len() as int) =~= lit_username());
    }
    assert(s.skip(lit_username().len() as int) =~= t1);
    let r1exp = lit_uid() + esc(uid) + seq!['"'] + lit_suid() + esc(suid) + seq!['"'] + lit_exp()
        + dec_rep(exp) + seq!['}'];
    assert(t1 =~= esc(u) + seq!['"'] + r1exp);
    lemma_scan_esc(u, r1exp);
    assert(scan_str(t1) == Some((u, r1exp)));
    let t2 = esc(uid) + seq!['"'] + (lit_suid() + esc(suid) + seq!['"'] + lit_exp() + dec_rep(exp)
        + seq!['}']);
    assert(is_prefix(lit_uid(), r1exp)) by {
        assert(r1exp.subrange(0, lit_uid().len() as int) =~= lit_uid());
    }
    assert(r1exp.skip(lit_uid().len() as int) =~= t2);
    let r2exp = lit_suid() + esc(suid) + seq!['"'] + lit_exp() + dec_rep(exp) + seq!['}'];
    assert(t2 =~= esc(uid) + seq!['"'] + r2exp);
    lemma_scan_esc(uid, r2exp);
    let t3 = esc(suid) + seq!['"'] + (lit_exp() + dec_rep(exp) + seq!['}']);
    assert(is_prefix(lit_suid(), r2exp)) by {
        assert(r2exp.subrange(0, lit_suid().len() as int) =~= lit_suid());
    }
    assert(r2exp.skip(lit_suid().len() as int) =~= t3);
    let r3exp = lit_exp() + dec_rep(exp) + seq!['}'];
    assert(t3 =~= esc(suid) + seq!['"'] + r3exp);
    lemma_scan_esc(suid, r3exp);
    assert(is_prefix(lit_exp(), r3exp)) by {
        assert(r3exp.subrange(0, lit_exp().len() as int) =~= lit_exp());
    }
    let digits = r3exp.skip(lit_exp().len() as int);
    assert(digits =~= dec_rep(exp) + seq!['}']);
    lemma_dec_rep_digits(exp);
    assert(digits.len() >= 2);
    assert(digits.last() == '}');
    assert(digits.drop_last() =~= dec_rep(exp));
    lemma_parse_dec_rep(exp);
}

/// Renders a claims value as JSON.
pub fn render_claims(c: &UserClaims) -> (r: Vec<char>)
    ensures
        r@ == claims_json(c.username@, c.uid@, c.suid@, c.exp as int),
{
    let mut out: Vec<char> = Vec::new();
    let l1 = string_chars("{\"username\":\"");
    push_all(&mut out, &l1);
    let uch = string_chars(c.username.as_str());
    escape_into(&mut out, &uch);
    out.push('"');
    let l2 = string_chars(",\"uid\":\"");
    push_all(&mut out, &l2);
    let idch = string_chars(c.uid.as_str());
    escape_into(&mut out, &idch);
    out.push('"');
    let l3 = string_chars(",\"suid\":\"");
    push_all(&mut out, &l3);
    let sch = string_chars(c.suid.as_str());
    escape_into(&mut out, &sch);
    out.push('"');
    let l4 = string_chars(",\"exp\":");
    push_all(&mut out, &l4);
    let dch = render_dec(c.exp);
    push_all(&mut out, &dch);
    out.push('}');
    proof {
        assert(out@ =~= claims_json(c.username@, c.uid@, c.suid@, c.exp as int));
    }
    out
}

/// Parses a claims JSON text, exactly as `parse_claims` says.
pub fn parse_claims_chars(v: &Vec<char>) -> (r: Option<UserClaims>)
    ensures
        (match r {
            Some(c) => parse_claims(v@) == Some((c.username@, c.uid@, c.suid@, c.exp as int)),
            None => parse_claims(v@) is None,
        }),
{
    let nn: usize = v.len();
    let l1 = string_chars("{\"username\":\"");
    if !has_prefix_at(v, 0, &l1) {
        proof {
            assert(v@.skip(0) =~= v@);
        }
        return None;
    }
    proof {
        assert(v@.skip(0) =~= v@);
    }
    let (u, j1) = match scan_chars(v, l1.len()) {
        Some(p) => p,
        None => {
            return None;
        },
    };
    let l2 = string_chars(",\"uid\":\"");
    if !has_prefix_at(v, j1, &l2) {
        return None;
    }
    proof {
        assert(j1 + l2@.len() <= nn);
        assert(v@.skip(j1 as int).skip(l2@.len() as int) =~= v@.skip(j1 + l2@.len()));
    }
    let (uid, j2) = match scan_chars(v, j1 + l2.len()) {
        Some(p) => p,
        None => {
            return None;
        },
    };
    let l3 = string_chars(",\"suid\":\"");
    if !has_prefix_at(v, j2, &l3) {
        return None;
    }
    proof {
        assert(j2 + l3@.len() <= nn);
        assert(v@.skip(j2 as int).skip(l3@.len() as int) =~= v@.skip(j2 + l3@.len()));
    }
    let (suid, j3) = match scan_chars(v, j2 + l3.len()) {
        Some(p) => p,
        None => {
            return None;
        },
    };
    let l4 = string_chars(",\"exp\":");
    if !has_prefix_at(v, j3, &l4) {
        return None;
    }
    proof {
        assert(j3 + l4@.len() <= nn);
        assert(v@.skip(j3 as int).skip(l4@.len() as int) =~= v@.skip(j3 + l4@.len()));
    }
    let p: usize = j3 + l4.len();
    let n: usize = v.len();
    let ghost digits = v@.skip(j3 as int).skip(l4@.len() as int);
    if n - p < 2 {
        proof {
            assert(digits.len() < 2);
        }
        return None;
    }
    if !(v[n - 1] == '}') {
        proof {
            assert(digits.last() == v@[n - 1]);
        }
        return None;
    }
    proof {
        assert(digits.last() == v@[n - 1]);
        assert(digits.drop_last() =~= v@.subrange(p as int, n - 1));
    }
    let exp = match parse_dec_chars(v, p, n - 1) {
        Some(x) => x,
        None => {
            return None;
        },
    };
    Some(
        UserClaims {
            username: chars_string(&u),
            uid: chars_string(&uid),
            suid: chars_string(&suid),
            exp,
        },
    )
}


// ---------------------------------------------------------------------------
// Token assembly and verification
// ---------------------------------------------------------------------------

/// The JSON text of the token header.
pub open spec fn header_json() -> Seq<char> {
    "{\"typ\":\"JWT\",\"alg\":\"HS256\"}"@
}




/// The three dot-separated parts of a token, where it has exactly two dots.
pub open spec fn split3(s: Seq<char>) -> Option<(Seq<char>, Seq<char>, Seq<char>)> {
    let i = first_idx_of(s, '.');
    if i < 0 {
        None
    } else {
        let r = s.skip(i + 1);
        let j = first_idx_of(r, '.');
        if j < 0 {
            None
        } else {
            let c = r.skip(j + 1);
            if first_idx_of(c, '.') == -1 {
                Some((s.take(i), r.take(j), c))
            } else {
                None
            }
        }
    }
}

/// The claims a token carries, where its signature and header check out.
pub open spec fn spec_decode(token: Seq<char>, secret: Seq<u8>) -> Option<
    (Seq<char>, Seq<char>, Seq<char>, int),
> {
    match split3(token) {
        None => None,
        Some(parts) => if parts.2 == sig_of(parts.0 + seq!['.'] + parts.1, secret) {
            if b64url_rev(parts.0) == Some(header_json()) {
                match b64url_rev(parts.1) {
                    Some(j) => parse_claims(j),
                    None => None,
                }
            } else {
                None
            }
        } else {
            None
        },
    }
}

/// The claims a token yields at a given time: as `spec_decode`, and only
/// until the embedded expiry has passed.
pub open spec fn spec_decode_at(token: Seq<char>, secret: Seq<u8>, now: int) -> Option<
    (Seq<char>, Seq<char>, Seq<char>, int),
> {
    match spec_decode(token, secret) {
        Some(c) => if c.3 >= now {
            Some(c)
        } else {
            None
        },
        None => None,
    }
}


/// Splits a token at its dots, exactly as `split3` says.
fn split3_chars(v: &Vec<char>) -> (r: Option<(Vec<char>, Vec<char>, Vec<char>)>)
    ensures
        (match r {
            Some(p) => split3(v@) == Some((p.0@, p.1@, p.2@)),
            None => split3(v@) is None,
        }),
{
    let n: usize = v.len();
    let mut i: usize = 0;
    let mut d1: usize = 0;
    let mut d2: usize = 0;
    let mut count: usize = 0;
    while i < n
        invariant
            i <= n,
            n == v@.len(),
            count <= 2,
            count >= 1 ==> d1 < i && v@[d1 as int] == '.' && (forall|k: int|
                0 <= k < d1 ==> v@[k] != '.'),
            count >= 2 ==> d1 < d2 < i && v@[d2 as int] == '.' && (forall|k: int|
                d1 < k < d2 ==> v@[k] != '.'),
            count == 0 ==> forall|k: int| 0 <= k < i ==> v@[k] != '.',
            count == 1 ==> forall|k: int| d1 < k < i ==> v@[k] != '.',
            count == 2 ==> forall|k: int| d2 < k < i ==> v@[k] != '.',
        decreases n - i,
    {
        if v[i] == '.' {
            if count == 0 {
                d1 = i;
                count = 1;
            } else if count == 1 {
                d2 = i;
                count = 2;
            } else {
                proof {
                    lemma_first_idx_at(v@, '.', d1 as int);
                    let rest = v@.skip(d1 + 1);
                    assert(rest[d2 - d1 - 1] == '.');
                    assert(forall|k: int| 0 <= k < d2 - d1 - 1 ==> rest[k] == v@[d1 + 1 + k]);
                    lemma_first_idx_at(rest, '.', d2 - d1 - 1);
                    let tail = rest.skip(d2 - d1);
                    assert(tail[i - d2 - 1] == v@[i as int]);
                    lemma_first_found(tail, '.', i - d2 - 1);
                }
                return None;
            }
        }
        i += 1;
    }
    if count < 2 {
        proof {
            if count == 0 {
                lemma_first_idx_none(v@, '.');
            } else {
                lemma_first_idx_at(v@, '.', d1 as int);
                let rest = v@.skip(d1 + 1);
                assert(forall|k: int| 0 <= k < rest.len() ==> rest[k] == v@[d1 + 1 + k]);
                lemma_first_idx_none(rest, '.');
            }
        }
        return None;
    }
    let p0 = copy_range(v, 0, d1);
    let p1 = copy_range(v, d1 + 1, d2);
    let p2 = copy_range(v, d2 + 1, n);
    proof {
        lemma_first_idx_at(v@, '.', d1 as int);
        let rest = v@.skip(d1 + 1);
        assert(rest[d2 - d1 - 1] == '.');
        assert(forall|k: int| 0 <= k < d2 - d1 - 1 ==> rest[k] == v@[d1 + 1 + k]);
        lemma_first_idx_at(rest, '.', d2 - d1 - 1);
        let tail = rest.skip(d2 - d1);
        assert(forall|k: int| 0 <= k < tail.len() ==> tail[k] == v@[d2 + 1 + k]);
        lemma_first_idx_none(tail, '.');
        assert(v@.take(d1 as int) =~= p0@);
        assert(rest.take(d2 - d1 - 1) =~= p1@);
        assert(tail =~= p2@);
    }
    Some((p0, p1, p2))
}


/// Issues a signed token for a claims value. For claims free of control
/// characters, the token decodes back to exactly those claims until its
/// expiry passes.
pub fn issue_at(claims: &UserClaims, secret: &[u8]) -> (r: String)
    ensures
        (ctrl_free(claims.username@) && ctrl_free(claims.uid@) && ctrl_free(claims.suid@))
            ==> spec_decode(r@, secret@) == Some(
            (claims.username@, claims.uid@, claims.suid@, claims.exp as int),
        ),
        r@.len() >= 2,
{
    let hdr = b64url_encode("{\"typ\":\"JWT\",\"alg\":\"HS256\"}");
    let cj = render_claims(claims);
    let cjs = chars_string(&cj);
    let pl = b64url_encode(cjs.as_str());
    let hv = string_chars(hdr.as_str());
    let pv = string_chars(pl.as_str());
    let mut msgv: Vec<char> = Vec::new();
    push_all(&mut msgv, &hv);
    msgv.push('.');
    push_all(&mut msgv, &pv);
    let msg = chars_string(&msgv);
    let sig = sign_hs256(msg.as_str(), secret);
    let sv = string_chars(sig.as_str());
    let mut tv: Vec<char> = Vec::new();
    push_all(&mut tv, &msgv);
    tv.push('.');
    push_all(&mut tv, &sv);
    let token = chars_string(&tv);
    proof {
        let hl = hv@.len() as int;
        assert(tv@ =~= hv@ + seq!['.'] + pv@ + seq!['.'] + sv@);
        assert(tv@[hl] == '.');
        assert(forall|k: int| 0 <= k < hl ==> tv@[k] == hv@[k] && tv@[k] != '.');
        lemma_first_idx_at(tv@, '.', hl);
        let rest = tv@.skip(hl + 1);
        assert(rest =~= pv@ + seq!['.'] + sv@);
        let pl2 = pv@.len() as int;
        assert(rest[pl2] == '.');
        assert(forall|k: int| 0 <= k < pl2 ==> rest[k] == pv@[k] && rest[k] != '.');
        lemma_first_idx_at(rest, '.', pl2);
        let tail = rest.skip(pl2 + 1);
        assert(tail =~= sv@);
        assert(forall|k: int| 0 <= k < tail.len() ==> tail[k] != '.');
        lemma_first_idx_none(tail, '.');
        assert(tv@.take(hl) =~= hv@);
        assert(rest.take(pl2) =~= pv@);
        assert(split3(tv@) == Some((hv@, pv@, sv@)));
        assert(msgv@ =~= hv@ + seq!['.'] + pv@);
        assert(sv@ == sig_of(hv@ + seq!['.'] + pv@, secret@));
        if ctrl_free(claims.username@) && ctrl_free(claims.uid@) && ctrl_free(claims.suid@) {
            lemma_parse_claims_json(
                claims.username@,
                claims.uid@,
                claims.suid@,
                claims.exp as int,
            );
        }
    }
    token
}

/// Decodes and verifies a token at a given time, exactly as
/// `spec_decode_at` says: any signature, header, claims or expiry fault
/// collapses to one failure.
pub fn decode_at(token: &str, secret: &[u8], now: usize) -> (r: Result<UserClaims, ()>)
    ensures
        (match r {
            Ok(c) => spec_decode_at(token@, secret@, now as int) == Some(
                (c.username@, c.uid@, c.suid@, c.exp as int),
            ),
            Err(_) => spec_decode_at(token@, secret@, now as int) is None,
        }),
{
    let tv = string_chars(token);
    let parts = match split3_chars(&tv) {
        Some(p) => p,
        None => {
            return Err(());
        },
    };
    let (p0, p1, p2) = parts;
    let mut msgv: Vec<char> = Vec::new();
    push_all(&mut msgv, &p0);
    msgv.push('.');
    push_all(&mut msgv, &p1);
    let msg = chars_string(&msgv);
    let sigs = chars_string(&p2);
    proof {
        assert(msgv@ =~= p0@ + seq!['.'] + p1@);
    }
    if !verify_hs256(sigs.as_str(), msg.as_str(), secret) {
        return Err(());
    }
    let p0s = chars_string(&p0);
    let h = match b64url_decode(p0s.as_str()) {
        Some(h) => h,
        None => {
            return Err(());
        },
    };
    if !str_eq(h.as_str(), "{\"typ\":\"JWT\",\"alg\":\"HS256\"}") {
        return Err(());
    }
    let p1s = chars_string(&p1);
    let j = match b64url_decode(p1s.as_str()) {
        Some(j) => j,
        None => {
            return Err(());
        },
    };
    let jv = string_chars(j.as_str());
    let claims = match parse_claims_chars(&jv) {
        Some(c) => c,
        None => {
            return Err(());
        },
    };
    if claims.exp < now {
        return Err(());
    }
    Ok(claims)
}


/// A token whose claims decode under a secret verifies successfully at
/// any time up to its embedded expiry, and yields exactly those claims.
pub proof fn lemma_fresh_token_verifies(
    token: Seq<char>,
    secret: Seq<u8>,
    c: (Seq<char>, Seq<char>, Seq<char>, int),
    now: int,
)
    requires
        spec_decode(token, secret) == Some(c),
        now <= c.3,
    ensures
        spec_decode_at(token, secret, now) == Some(c),
{
}

/// A token whose embedded expiry lies in the past fails verification,
/// whatever else it carries.
pub proof fn lemma_expired_token_fails(token: Seq<char>, secret: Seq<u8>, now: int)
    requires
        spec_decode(token, secret) matches Some(c) && c.3 < now,
    ensures
        spec_decode_at(token, secret, now) is None,
{
}

} // verus!
