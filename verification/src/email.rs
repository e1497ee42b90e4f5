//! Email shape validation: a non-empty local part, one at-sign, and a
//! dotted domain, over an ASCII-oriented character class.
use vstd::prelude::*;
use crate::text::{first_idx_of, lemma_first_idx_at, lemma_first_idx_none, lemma_first_idx_bound, string_chars, copy_range};

verus! {

/// Whitespace that is trimmed from either end before validation.
pub open spec fn is_space_char(c: char) -> bool {
    (c as int) == 32 || (9 <= (c as int) && (c as int) <= 13)
}

pub open spec fn trim_front(s: Seq<char>) -> Seq<char>
    decreases s.len(),
{
    if s.len() > 0 && is_space_char(s[0]) {
        trim_front(s.skip(1))
    } else {
        s
    }
}

pub open spec fn trim_back(s: Seq<char>) -> Seq<char>
    decreases s.len(),
{
    if s.len() > 0 && is_space_char(s.last()) {
        trim_back(s.drop_last())
    } else {
        s
    }
}

/// The string with leading and trailing whitespace removed.
pub open spec fn trim_spec(s: Seq<char>) -> Seq<char> {
    trim_back(trim_front(s))
}

/// A character the local part (before the at-sign) may hold.
pub open spec fn is_local_char(c: char) -> bool {
    ('a' <= c && c <= 'z') || ('A' <= c && c <= 'Z') || ('0' <= c && c <= '9') || c == '_'
        || c == '.' || c == '+' || c == '-'
}

/// A character the domain may hold before its first dot.
pub open spec fn is_label_char(c: char) -> bool {
    ('a' <= c && c <= 'z') || ('A' <= c && c <= 'Z') || ('0' <= c && c <= '9') || c == '-'
}

/// A character the domain may hold after its first dot.
pub open spec fn is_domain_char(c: char) -> bool {
    is_label_char(c) || c == '.'
}

/// The domain part: a non-empty run of label characters, a dot, and at
/// least one more domain character.
pub open spec fn valid_domain(d: Seq<char>) -> bool {
    let k = first_idx_of(d, '.');
    &&& k >= 1
    &&& forall|i: int| 0 <= i < k ==> is_label_char(#[trigger] d[i])
    &&& k + 1 < d.len()
    &&& forall|j: int| k < j < d.len() ==> is_domain_char(#[trigger] d[j])
}

/// The accepted email shape: a non-empty local part of local characters,
/// one at-sign, and a valid domain.
pub open spec fn valid_email(s: Seq<char>) -> bool {
    let a = first_idx_of(s, '@');
    &&& a >= 1
    &&& forall|i: int| 0 <= i < a ==> is_local_char(#[trigger] s[i])
    &&& valid_domain(s.skip(a + 1))
}

fn is_space(c: char) -> (r: bool)
    ensures
        r == is_space_char(c),
{
    let sp: char = ' ';
    let tb: char = '\u{9}';
    let cr: char = '\u{d}';
    !(c < sp) && !(sp < c) || (!(c < tb) && !(cr < c))
}

fn is_local(c: char) -> (r: bool)
    ensures
        r == is_local_char(c),
{
    let la: char = 'a';
    let lz: char = 'z';
    let ua: char = 'A';
    let uz: char = 'Z';
    let d0: char = '0';
    let d9: char = '9';
    (la <= c && c <= lz) || (ua <= c && c <= uz) || (d0 <= c && c <= d9) || c == '_' || c == '.'
        || c == '+' || c == '-'
}

fn is_label(c: char) -> (r: bool)
    ensures
        r == is_label_char(c),
{
    let la: char = 'a';
    let lz: char = 'z';
    let ua: char = 'A';
    let uz: char = 'Z';
    let d0: char = '0';
    let d9: char = '9';
    (la <= c && c <= lz) || (ua <= c && c <= uz) || (d0 <= c && c <= d9) || c == '-'
}

/// Removes leading and trailing whitespace.
#[verifier::loop_isolation(false)]
pub fn trim_chars(v: &Vec<char>) -> (r: Vec<char>)
    ensures
        r@ == trim_spec(v@),
{
    let n: usize = v.len();
    let mut lo: usize = 0;
    proof {
        assert(v@.skip(0) =~= v@);
    }
    while lo < n && is_space(v[lo])
        invariant
            lo <= n,
            n == v@.len(),
            trim_front(v@) == trim_front(v@.skip(lo as int)),
        decreases n - lo,
    {
        proof {
            assert(v@.skip(lo as int)[0] == v@[lo as int]);
            assert(v@.skip(lo as int).skip(1) =~= v@.skip(lo + 1));
        }
        lo += 1;
    }
    proof {
        if lo < n {
            assert(v@.skip(lo as int)[0] == v@[lo as int]);
        }
        assert(trim_front(v@) =~= v@.skip(lo as int));
    }
    let mut hi: usize = n;
    proof {
        assert(v@.skip(lo as int) =~= v@.subrange(lo as int, n as int));
    }
    while hi > lo && is_space(v[hi - 1])
        invariant
            lo <= hi <= n,
            n == v@.len(),
            trim_front(v@) == v@.skip(lo as int),
            trim_back(v@.skip(lo as int)) == trim_back(v@.subrange(lo as int, hi as int)),
        decreases hi,
    {
        proof {
            let cur = v@.subrange(lo as int, hi as int);
            assert(cur.last() == v@[hi - 1]);
            assert(cur.drop_last() =~= v@.subrange(lo as int, hi - 1));
        }
        hi -= 1;
    }
    proof {
        let cur = v@.subrange(lo as int, hi as int);
        if hi > lo {
            assert(cur.last() == v@[hi - 1]);
        }
        assert(trim_back(cur) =~= cur);
        assert(v@.skip(lo as int) =~= v@.subrange(lo as int, n as int));
    }
    copy_range(v, lo, hi)
}

/// Whether the email, after trimming, matches the accepted shape:
/// local part, at-sign, dotted domain.
#[verifier::loop_isolation(false)]
pub fn check_email(email: &str) -> (r: bool)
    ensures
        r == valid_email(trim_spec(email@)),
{
    let chars = string_chars(email);
    let t = trim_chars(&chars);
    let n: usize = t.len();
    // find the first at-sign
    let mut i: usize = 0;
    while i < n && !(t[i] == '@')
        invariant
            i <= n,
            n == t@.len(),
            forall|k: int| 0 <= k < i ==> t@[k] != '@',
        decreases n - i,
    {
        i += 1;
    }
    if i == n {
        proof {
            lemma_first_idx_none(t@, '@');
        }
        return false;
    }
    proof {
        lemma_first_idx_at(t@, '@', i as int);
    }
    if i < 1 {
        return false;
    }
    // the local part
    let mut p: usize = 0;
    while p < i
        invariant
            p <= i <= n,
            n == t@.len(),
            forall|k: int| 0 <= k < p ==> is_local_char(#[trigger] t@[k]),
        decreases i - p,
    {
        if !is_local(t[p]) {
            return false;
        }
        p += 1;
    }
    // the domain: find its first dot
    let ghost d = t@.skip(i + 1);
    proof {
        assert(forall|k: int| 0 <= k < d.len() ==> d[k] == t@[i + 1 + k]);
    }
    let mut q: usize = i + 1;
    while q < n && !(t[q] == '.')
        invariant
            i + 1 <= q <= n,
            n == t@.len(),
            forall|k: int| i + 1 <= k < q ==> t@[k] != '.',
        decreases n - q,
    {
        q += 1;
    }
    if q == n {
        proof {
            assert(forall|k: int| 0 <= k < d.len() ==> d[k] == t@[i + 1 + k] && d[k] != '.');
            lemma_first_idx_none(d, '.');
        }
        return false;
    }
    proof {
        assert(d[q - i - 1] == t@[q as int]);
        assert(forall|k: int| 0 <= k < q - i - 1 ==> d[k] == t@[i + 1 + k] && d[k] != '.');
        lemma_first_idx_at(d, '.', q - i - 1);
    }
    if q - i - 1 < 1 {
        return false;
    }
    // the label before the dot
    let mut p2: usize = i + 1;
    while p2 < q
        invariant
            i + 1 <= p2 <= q <= n,
            n == t@.len(),
            forall|k: int| i + 1 <= k < p2 ==> is_label_char(#[trigger] t@[k]),
        decreases q - p2,
    {
        if !is_label(t[p2]) {
            proof {
                assert(d[p2 - i - 1] == t@[p2 as int]);
            }
            return false;
        }
        p2 += 1;
    }
    // at least one domain character after the dot
    if q + 1 >= n {
        return false;
    }
    let mut p3: usize = q + 1;
    while p3 < n
        invariant
            q + 1 <= p3 <= n,
            n == t@.len(),
            forall|k: int| q + 1 <= k < p3 ==> is_domain_char(#[trigger] t@[k]),
        decreases n - p3,
    {
        if !(is_label(t[p3]) || t[p3] == '.') {
            proof {
                assert(d[p3 - i - 1] == t@[p3 as int]);
            }
            return false;
        }
        p3 += 1;
    }
    proof {
        assert(forall|k: int| 0 <= k < q - i - 1 ==> d[k] == t@[i + 1 + k]
            && is_label_char(d[k]));
        assert(forall|j: int| q - i - 1 < j < d.len() ==> d[j] == t@[i + 1 + j]
            && is_domain_char(d[j]));
        assert(valid_domain(d));
    }
    true
}

/// Trimming never introduces a character.
proof fn lemma_trim_front_no_char(s: Seq<char>, c: char)
    requires
        forall|i: int| 0 <= i < s.len() ==> s[i] != c,
    ensures
        forall|i: int| 0 <= i < trim_front(s).len() ==> trim_front(s)[i] != c,
    decreases s.len(),
{
    if s.len() > 0 && is_space_char(s[0]) {
        assert(forall|i: int| 0 <= i < s.skip(1).len() ==> s.skip(1)[i] == s[i + 1] && s[i
            + 1] != c);
        lemma_trim_front_no_char(s.skip(1), c);
        assert(trim_front(s) == trim_front(s.skip(1)));
    }
}

proof fn lemma_trim_back_no_char(s: Seq<char>, c: char)
    requires
        forall|i: int| 0 <= i < s.len() ==> s[i] != c,
    ensures
        forall|i: int| 0 <= i < trim_back(s).len() ==> trim_back(s)[i] != c,
    decreases s.len(),
{
    if s.len() > 0 && is_space_char(s.last()) {
        assert(forall|i: int| 0 <= i < s.drop_last().len() ==> s.drop_last()[i] == s[i] && s[i]
            != c);
        lemma_trim_back_no_char(s.drop_last(), c);
        assert(trim_back(s) == trim_back(s.drop_last()));
    }
}

/// An input with no at-sign is never a valid email, trimmed or not.
pub proof fn lemma_missing_at_rejected(s: Seq<char>)
    requires
        forall|i: int| 0 <= i < s.len() ==> s[i] != '@',
    ensures
        !valid_email(trim_spec(s)),
{
    lemma_trim_front_no_char(s, '@');
    lemma_trim_back_no_char(trim_front(s), '@');
    lemma_first_idx_none(trim_spec(s), '@');
}

/// An input with no dot is never a valid email, trimmed or not.
pub proof fn lemma_missing_dot_rejected(s: Seq<char>)
    requires
        forall|i: int| 0 <= i < s.len() ==> s[i] != '.',
    ensures
        !valid_email(trim_spec(s)),
{
    lemma_trim_front_no_char(s, '.');
    lemma_trim_back_no_char(trim_front(s), '.');
    let t = trim_spec(s);
    let a = first_idx_of(t, '@');
    lemma_first_idx_bound(t, '@');
    if 0 <= a < t.len() {
        let d = t.skip(a + 1);
        assert(forall|k: int| 0 <= k < d.len() ==> d[k] == t[a + 1 + k] && d[k] != '.');
        lemma_first_idx_none(d, '.');
    }
}

} // verus!
