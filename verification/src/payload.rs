//! The claims document a bearer token carries:
//! `{"sub":"<escaped subject>","access":"View"}` or the same with `"Admin"`.
//!
//! The serializer and parser are strict inverses, proved here: the parser
//! accepts exactly the documents the serializer produces.

use crate::access::Access;
use vstd::prelude::*;

verus! {

/// The lowercase hex digit byte for a value below 16.
pub open spec fn hex_digit_byte(v: u8) -> u8
    recommends
        v < 16,
{
    if v < 10 {
        (0x30 + v) as u8
    } else {
        (0x57 + v) as u8
    }
}

/// JSON escaping of one byte of a string: quote and backslash get a
/// backslash, control bytes become `\u00xx`, everything else passes through.
pub open spec fn esc_byte(b: u8) -> Seq<u8> {
    if b == 0x22 {
        seq![0x5c, 0x22]
    } else if b == 0x5c {
        seq![0x5c, 0x5c]
    } else if b < 0x20 {
        seq![0x5c, 0x75, 0x30, 0x30, hex_digit_byte((b / 16) as u8), hex_digit_byte((b % 16) as u8)]
    } else {
        seq![b]
    }
}

/// JSON escaping of a byte string, byte by byte.
pub open spec fn esc(bytes: Seq<u8>) -> Seq<u8>
    decreases bytes.len(),
{
    if bytes.len() == 0 {
        Seq::empty()
    } else {
        esc_byte(bytes[0]) + esc(bytes.drop_first())
    }
}

/// A lowercase hex digit byte.
pub open spec fn is_lower_hex_byte(b: u8) -> bool {
    (0x30 <= b <= 0x39) || (0x61 <= b <= 0x66)
}

/// The value of a lowercase hex digit byte.
pub open spec fn lower_hex_val(b: u8) -> u8
    recommends
        is_lower_hex_byte(b),
{
    if b <= 0x39 {
        (b - 0x30) as u8
    } else {
        (b - 0x57) as u8
    }
}

/// Prepends a byte to an optional byte string.
pub open spec fn opt_cons(b: u8, rest: Option<Seq<u8>>) -> Option<Seq<u8>> {
    match rest {
        Some(r) => Some(seq![b] + r),
        None => None,
    }
}

/// Strict unescaping: accepts exactly the escape sequences [`esc`] emits
/// (`\"`, `\\`, and canonical lowercase `\u00xx` for control bytes), and
/// refuses bare quotes, bare backslash tails and bare control bytes.
pub open spec fn unesc(s: Seq<u8>) -> Option<Seq<u8>>
    decreases s.len(),
{
    if s.len() == 0 {
        Some(Seq::empty())
    } else if s[0] == 0x5c {
        if s.len() >= 2 && s[1] == 0x22 {
            opt_cons(0x22, unesc(s.skip(2)))
        } else if s.len() >= 2 && s[1] == 0x5c {
            opt_cons(0x5c, unesc(s.skip(2)))
        } else if s.len() >= 6 && s[1] == 0x75 && s[2] == 0x30 && s[3] == 0x30 && is_lower_hex_byte(
            s[4],
        ) && is_lower_hex_byte(s[5]) && lower_hex_val(s[4]) * 16 + lower_hex_val(s[5]) < 0x20 {
            opt_cons((lower_hex_val(s[4]) * 16 + lower_hex_val(s[5])) as u8, unesc(s.skip(6)))
        } else {
            None
        }
    } else if s[0] == 0x22 || s[0] < 0x20 {
        None
    } else {
        opt_cons(s[0], unesc(s.drop_first()))
    }
}

/// Escaping one more byte extends the escaped string at the end.
pub proof fn lemma_esc_push(prefix: Seq<u8>, b: u8)
    ensures
        esc(prefix.push(b)) == esc(prefix) + esc_byte(b),
    decreases prefix.len(),
{
    if prefix.len() == 0 {
        assert(prefix.push(b)[0] == b);
        assert(prefix.push(b).drop_first() =~= Seq::<u8>::empty());
        assert(esc(prefix.push(b)) == esc_byte(b) + esc(Seq::<u8>::empty()));
        assert(esc(prefix.push(b)) =~= esc(prefix) + esc_byte(b));
    } else {
        lemma_esc_push(prefix.drop_first(), b);
        assert(prefix.push(b)[0] == prefix[0]);
        assert(prefix.push(b).drop_first() =~= prefix.drop_first().push(b));
        assert(esc(prefix.push(b)) == esc_byte(prefix[0]) + esc(prefix.drop_first().push(b)));
        assert(esc(prefix.push(b)) =~= esc(prefix) + esc_byte(b));
    }
}

/// An escaped string is at most six times as long as the original.
pub proof fn lemma_esc_len(bytes: Seq<u8>)
    ensures
        esc(bytes).len() <= 6 * bytes.len(),
    decreases bytes.len(),
{
    if bytes.len() > 0 {
        lemma_esc_len(bytes.drop_first());
    }
}

/// Unescaping inverts escaping.
pub proof fn lemma_unesc_esc(x: Seq<u8>)
    ensures
        unesc(esc(x)) == Some(x),
    decreases x.len(),
{
    if x.len() == 0 {
        assert(unesc(esc(x)) =~= Some(x));
    } else {
        let b = x[0];
        let rest = x.drop_first();
        lemma_unesc_esc(rest);
        let e = esc(x);
        assert(e == esc_byte(b) + esc(rest));
        if b == 0x22 {
            assert(e.skip(2) =~= esc(rest));
            assert(seq![0x22u8] + rest =~= x);
        } else if b == 0x5c {
            assert(e.skip(2) =~= esc(rest));
            assert(seq![0x5cu8] + rest =~= x);
        } else if b < 0x20 {
            assert(e.skip(6) =~= esc(rest));
            assert(is_lower_hex_byte(hex_digit_byte((b / 16) as u8)));
            assert(is_lower_hex_byte(hex_digit_byte((b % 16) as u8)));
            assert(lower_hex_val(hex_digit_byte((b / 16) as u8)) == b / 16);
            assert(lower_hex_val(hex_digit_byte((b % 16) as u8)) == b % 16);
            assert(seq![b] + rest =~= x);
        } else {
            assert(e.drop_first() =~= esc(rest));
            assert(seq![b] + rest =~= x);
        }
    }
}

/// Strictness: anything that unescapes at all is the escaping of its result.
pub proof fn lemma_unesc_sound(m: Seq<u8>, x: Seq<u8>)
    requires
        unesc(m) == Some(x),
    ensures
        m == esc(x),
    decreases m.len(),
{
    if m.len() == 0 {
        assert(x =~= Seq::<u8>::empty());
        assert(m =~= esc(x));
    } else if m[0] == 0x5c {
        if m.len() >= 2 && m[1] == 0x22 {
            let r = unesc(m.skip(2)).unwrap();
            assert(x == seq![0x22u8] + r);
            assert(r =~= x.drop_first());
            lemma_unesc_sound(m.skip(2), x.drop_first());
            assert(x[0] == 0x22);
            assert(m =~= esc_byte(x[0]) + esc(x.drop_first()));
        } else if m.len() >= 2 && m[1] == 0x5c {
            let r = unesc(m.skip(2)).unwrap();
            assert(x == seq![0x5cu8] + r);
            assert(r =~= x.drop_first());
            lemma_unesc_sound(m.skip(2), x.drop_first());
            assert(x[0] == 0x5c);
            assert(m =~= esc_byte(x[0]) + esc(x.drop_first()));
        } else if m.len() >= 6 && m[1] == 0x75 && m[2] == 0x30 && m[3] == 0x30 && is_lower_hex_byte(
            m[4],
        ) && is_lower_hex_byte(m[5]) && lower_hex_val(m[4]) * 16 + lower_hex_val(m[5]) < 0x20 {
            let b = (lower_hex_val(m[4]) * 16 + lower_hex_val(m[5])) as u8;
            let r = unesc(m.skip(6)).unwrap();
            assert(x == seq![b] + r);
            assert(r =~= x.drop_first());
            lemma_unesc_sound(m.skip(6), x.drop_first());
            assert(x[0] == b);
            assert(hex_digit_byte((b / 16) as u8) == m[4]);
            assert(hex_digit_byte((b % 16) as u8) == m[5]);
            assert(m =~= esc_byte(x[0]) + esc(x.drop_first()));
        } else {
            assert(false);
        }
    } else {
        let r = unesc(m.drop_first()).unwrap();
        assert(x == seq![m[0]] + r);
        assert(r =~= x.drop_first());
        lemma_unesc_sound(m.drop_first(), x.drop_first());
        assert(m =~= esc_byte(x[0]) + esc(x.drop_first()));
    }
}

/// Escaping is injective.
pub proof fn lemma_esc_injective(x1: Seq<u8>, x2: Seq<u8>)
    requires
        esc(x1) == esc(x2),
    ensures
        x1 == x2,
{
    lemma_unesc_esc(x1);
    lemma_unesc_esc(x2);
}

/// The lowercase hex digit byte for a value below 16.
pub(crate) fn hex_digit_byte_exec(v: u8) -> (r: u8)
    requires
        v < 16,
    ensures
        r == hex_digit_byte(v),
{
    if v < 10 {
        0x30 + v
    } else {
        0x57 + v
    }
}

/// Escapes a byte string for embedding in a JSON string literal.
pub fn escape_bytes(input: &[u8]) -> (r: Vec<u8>)
    ensures
        r@ == esc(input@),
{
    let mut out: Vec<u8> = Vec::new();
    let mut i: usize = 0;
    while i < input.len()
        invariant
            0 <= i <= input@.len(),
            out@ == esc(input@.take(i as int)),
        decreases input@.len() - i,
    {
        let b = input[i];
        if b == 0x22 {
            out.push(0x5c);
            out.push(0x22);
        } else if b == 0x5c {
            out.push(0x5c);
            out.push(0x5c);
        } else if b < 0x20 {
            out.push(0x5c);
            out.push(0x75);
            out.push(0x30);
            out.push(0x30);
            out.push(hex_digit_byte_exec(b / 16));
            out.push(hex_digit_byte_exec(b % 16));
        } else {
            out.push(b);
        }
        proof {
            lemma_esc_push(input@.take(i as int), b);
            assert(input@.take(i as int).push(b) =~= input@.take(i as int + 1));
            assert(out@ =~= esc(input@.take(i as int)) + esc_byte(b));
        }
        i = i + 1;
    }
    proof {
        assert(input@.take(input@.len() as int) =~= input@);
    }
    out
}

/// Joins a parsed prefix with the rest still to unescape.
pub open spec fn opt_concat(done: Seq<u8>, rest: Option<Seq<u8>>) -> Option<Seq<u8>> {
    match rest {
        Some(r) => Some(done + r),
        None => None,
    }
}

/// A parsed byte moves from the tail to the done prefix.
proof fn lemma_opt_concat_cons(done: Seq<u8>, b: u8, rest: Option<Seq<u8>>)
    ensures
        opt_concat(done, opt_cons(b, rest)) == opt_concat(done.push(b), rest),
{
    match rest {
        Some(r) => {
            assert(done + (seq![b] + r) =~= done.push(b) + r);
        },
        None => {},
    }
}

/// Undoes [`escape_bytes`], refusing anything the escaper would not emit.
pub fn unescape_bytes(input: &[u8]) -> (r: Option<Vec<u8>>)
    ensures
        r matches Some(v) ==> unesc(input@) == Some(v@),
        r is None ==> unesc(input@) is None,
{
    let mut out: Vec<u8> = Vec::new();
    let mut i: usize = 0;
    proof {
        assert(input@.skip(0) =~= input@);
        match unesc(input@) {
            Some(r) => {
                assert(Seq::<u8>::empty() + r =~= r);
            },
            None => {},
        }
    }
    while i < input.len()
        invariant
            0 <= i <= input@.len(),
            unesc(input@) == opt_concat(out@, unesc(input@.skip(i as int))),
        decreases input@.len() - i,
    {
        let ghost tail = input@.skip(i as int);
        proof {
            assert(tail[0] == input@[i as int]);
            if i + 1 < input@.len() {
                assert(tail[1] == input@[i as int + 1]);
            }
            if i + 5 < input@.len() {
                assert(tail[2] == input@[i as int + 2]);
                assert(tail[3] == input@[i as int + 3]);
                assert(tail[4] == input@[i as int + 4]);
                assert(tail[5] == input@[i as int + 5]);
            }
        }
        let b = input[i];
        if b == 0x5c {
            if input.len() - i > 1 && (input[i + 1] == 0x22 || input[i + 1] == 0x5c) {
                proof {
                    assert(tail.skip(2) =~= input@.skip(i as int + 2));
                    lemma_opt_concat_cons(out@, input@[i as int + 1], unesc(tail.skip(2)));
                }
                out.push(input[i + 1]);
                i = i + 2;
            } else if input.len() - i > 5 && input[i + 1] == 0x75 && input[i + 2] == 0x30 && input[i
                + 3] == 0x30 && is_lower_hex_exec(input[i + 4]) && is_lower_hex_exec(input[i + 5])
                && lower_hex_val_exec(input[i + 4]) * 16 + lower_hex_val_exec(input[i + 5])
                < 0x20 {
                let v = lower_hex_val_exec(input[i + 4]) * 16 + lower_hex_val_exec(input[i + 5]);
                proof {
                    assert(tail.skip(6) =~= input@.skip(i as int + 6));
                    lemma_opt_concat_cons(out@, v, unesc(tail.skip(6)));
                }
                out.push(v);
                i = i + 6;
            } else {
                proof {
                    assert(unesc(tail) is None);
                }
                return None;
            }
        } else if b == 0x22 || b < 0x20 {
            proof {
                assert(unesc(tail) is None);
            }
            return None;
        } else {
            proof {
                assert(tail.drop_first() =~= input@.skip(i as int + 1));
                lemma_opt_concat_cons(out@, b, unesc(tail.drop_first()));
            }
            out.push(b);
            i = i + 1;
        }
    }
    proof {
        assert(input@.skip(input@.len() as int) =~= Seq::<u8>::empty());
        assert(out@ + Seq::<u8>::empty() =~= out@);
    }
    Some(out)
}

/// The opening bytes of the claims document: `{"sub":"`.
pub open spec fn spec_prefix() -> Seq<u8> {
    seq![0x7b, 0x22, 0x73, 0x75, 0x62, 0x22, 0x3a, 0x22]
}

/// The bytes between the subject and the access level: `","access":"`.
pub open spec fn spec_mid() -> Seq<u8> {
    seq![0x22, 0x2c, 0x22, 0x61, 0x63, 0x63, 0x65, 0x73, 0x73, 0x22, 0x3a, 0x22]
}

/// The closing bytes of the claims document: `"}`.
pub open spec fn spec_end() -> Seq<u8> {
    seq![0x22, 0x7d]
}

/// The name of an access level as it appears in the document.
pub open spec fn access_bytes(a: Access) -> Seq<u8> {
    match a {
        Access::Admin => seq![0x41, 0x64, 0x6d, 0x69, 0x6e],
        Access::View => seq![0x56, 0x69, 0x65, 0x77],
    }
}

/// Everything of the document after the escaped subject.
pub open spec fn spec_tail(a: Access) -> Seq<u8> {
    spec_mid() + access_bytes(a) + spec_end()
}

/// The whole claims document for a subject (as UTF-8 bytes) and access level.
pub open spec fn payload_bytes(sub_utf8: Seq<u8>, a: Access) -> Seq<u8> {
    spec_prefix() + esc(sub_utf8) + spec_tail(a)
}

/// The documents for two access levels always differ three bytes from the
/// end, where `Admin` has an `n` and `View` a `w`.
pub proof fn lemma_payload_injective(s1: Seq<u8>, a1: Access, s2: Seq<u8>, a2: Access)
    requires
        payload_bytes(s1, a1) == payload_bytes(s2, a2),
    ensures
        s1 == s2,
        a1 == a2,
{
    let p = payload_bytes(s1, a1);
    assert(p[p.len() - 3] == access_bytes(a1)[access_bytes(a1).len() - 1]);
    assert(p[p.len() - 3] == access_bytes(a2)[access_bytes(a2).len() - 1]);
    assert(a1 == a2);
    assert(esc(s1) =~= p.subrange(8, p.len() - spec_tail(a1).len() as int));
    assert(esc(s2) =~= p.subrange(8, p.len() - spec_tail(a2).len() as int));
    lemma_esc_injective(s1, s2);
}

/// The opening bytes of the claims document.
fn prefix_vec() -> (r: Vec<u8>)
    ensures
        r@ == spec_prefix(),
{
    let mut v: Vec<u8> = Vec::new();
    v.push(0x7b);
    v.push(0x22);
    v.push(0x73);
    v.push(0x75);
    v.push(0x62);
    v.push(0x22);
    v.push(0x3a);
    v.push(0x22);
    proof {
        assert(v@ =~= spec_prefix());
    }
    v
}

/// Everything of the document after the escaped subject, for one level.
fn tail_vec(admin: bool) -> (r: Vec<u8>)
    ensures
        r@ == spec_tail(if admin {
            Access::Admin
        } else {
            Access::View
        }),
{
    let mut v: Vec<u8> = Vec::new();
    v.push(0x22);
    v.push(0x2c);
    v.push(0x22);
    v.push(0x61);
    v.push(0x63);
    v.push(0x63);
    v.push(0x65);
    v.push(0x73);
    v.push(0x73);
    v.push(0x22);
    v.push(0x3a);
    v.push(0x22);
    if admin {
        v.push(0x41);
        v.push(0x64);
        v.push(0x6d);
        v.push(0x69);
        v.push(0x6e);
    } else {
        v.push(0x56);
        v.push(0x69);
        v.push(0x65);
        v.push(0x77);
    }
    v.push(0x22);
    v.push(0x7d);
    proof {
        if admin {
            assert(v@ =~= spec_tail(Access::Admin));
        } else {
            assert(v@ =~= spec_tail(Access::View));
        }
    }
    v
}

/// Whether `p` holds exactly `pat` starting at `at`.
fn bytes_eq_at(p: &[u8], at: usize, pat: &[u8]) -> (r: bool)
    requires
        at + pat@.len() <= p@.len(),
    ensures
        r <==> p@.subrange(at as int, at as int + pat@.len() as int) == pat@,
{
    let ghost sub = p@.subrange(at as int, at as int + pat@.len() as int);
    let n = p.len();
    let mut i: usize = 0;
    while i < pat.len()
        invariant
            n == p@.len(),
            at + pat@.len() <= p@.len(),
            0 <= i <= pat@.len(),
            sub == p@.subrange(at as int, at as int + pat@.len() as int),
            forall|j: int| 0 <= j < i ==> p@[at + j] == pat@[j],
        decreases pat@.len() - i,
    {
        if p[at + i] != pat[i] {
            proof {
                assert(sub[i as int] == p@[at + i]);
            }
            return false;
        }
        i = i + 1;
    }
    proof {
        assert(sub =~= pat@);
    }
    true
}

/// Builds the claims document for a subject and access level.
pub fn build_payload(sub_utf8: &[u8], admin: bool) -> (r: Vec<u8>)
    ensures
        r@ == payload_bytes(sub_utf8@, if admin {
            Access::Admin
        } else {
            Access::View
        }),
{
    let mut out = prefix_vec();
    let mut escaped = escape_bytes(sub_utf8);
    out.append(&mut escaped);
    let mut tail = tail_vec(admin);
    out.append(&mut tail);
    proof {
        if admin {
            assert(out@ =~= payload_bytes(sub_utf8@, Access::Admin));
        } else {
            assert(out@ =~= payload_bytes(sub_utf8@, Access::View));
        }
    }
    out
}

/// Parses a claims document, accepting exactly what [`build_payload`]
/// produces and returning the unescaped subject bytes and the access level.
pub fn parse_payload(p: &[u8]) -> (r: Option<(Vec<u8>, Access)>)
    ensures
        r matches Some(pair) ==> p@ == payload_bytes(pair.0@, pair.1),
        forall|sub: Seq<u8>, a: Access| p@ == #[trigger] payload_bytes(sub, a) ==> r is Some,
{
    proof {
        assert forall|sub: Seq<u8>, a: Access| (#[trigger] payload_bytes(sub, a)).len() >= 26 by {
            lemma_esc_len(sub);
        }
    }
    if p.len() < 26 {
        return None;
    }
    let pre = prefix_vec();
    if !bytes_eq_at(p, 0, pre.as_slice()) {
        proof {
            assert forall|sub: Seq<u8>, a: Access| p@ != #[trigger] payload_bytes(sub, a) by {
                if p@ == payload_bytes(sub, a) {
                    assert(p@.subrange(0, 8) =~= spec_prefix());
                }
            }
        }
        return None;
    }
    let tail_admin = tail_vec(true);
    let tail_view = tail_vec(false);
    let admin: bool;
    let tail_len: usize;
    if p.len() >= 27 && bytes_eq_at(p, p.len() - 19, tail_admin.as_slice()) {
        admin = true;
        tail_len = 19;
    } else if bytes_eq_at(p, p.len() - 18, tail_view.as_slice()) {
        proof {
            assert forall|sub: Seq<u8>| p@ != payload_bytes(sub, Access::Admin) by {
                if p@ == payload_bytes(sub, Access::Admin) {
                    assert(p@.len() >= 27) by {
                        lemma_esc_len(sub);
                    }
                    assert(p@.subrange(p@.len() - 19, p@.len() as int) =~= spec_tail(
                        Access::Admin,
                    ));
                }
            }
        }
        admin = false;
        tail_len = 18;
    } else {
        proof {
            assert forall|sub: Seq<u8>, a: Access| p@ != #[trigger] payload_bytes(sub, a) by {
                if p@ == payload_bytes(sub, a) {
                    if a is Admin {
                        assert(p@.len() >= 27) by {
                            lemma_esc_len(sub);
                        }
                        assert(p@.subrange(p@.len() - 19, p@.len() as int) =~= spec_tail(
                            Access::Admin,
                        ));
                    } else {
                        assert(p@.subrange(p@.len() - 18, p@.len() as int) =~= spec_tail(
                            Access::View,
                        ));
                    }
                }
            }
        }
        return None;
    }
    let ghost acc = if admin {
        Access::Admin
    } else {
        Access::View
    };
    proof {
        // The matched tail pins the access level: three bytes from the end the
        // two levels disagree.
        assert forall|sub: Seq<u8>, a: Access|
            p@ == #[trigger] payload_bytes(sub, a) implies a == acc by {
            let t = spec_tail(a);
            assert(p@ == (spec_prefix() + esc(sub)) + t);
            assert(p@[p@.len() - 3] == t[t.len() - 3]);
            assert(t[t.len() - 3] == access_bytes(a)[access_bytes(a).len() - 1]);
            let tm = p@.subrange(p@.len() - tail_len as int, p@.len() as int);
            assert(tm =~= spec_tail(acc));
            assert(p@[p@.len() - 3] == tm[tm.len() - 3]);
            assert(tm[tm.len() - 3] == access_bytes(acc)[access_bytes(acc).len() - 1]);
        }
    }
    let region = vstd::slice::slice_subrange(p, 8, p.len() - tail_len);
    match unescape_bytes(region) {
        Some(sub) => {
            proof {
                lemma_unesc_sound(region@, sub@);
                assert(p@ =~= spec_prefix() + esc(sub@) + spec_tail(acc));
            }
            Some((sub, if admin {
                Access::Admin
            } else {
                Access::View
            }))
        },
        None => {
            proof {
                assert forall|sub: Seq<u8>, a: Access| p@ != #[trigger] payload_bytes(sub, a) by {
                    if p@ == payload_bytes(sub, a) {
                        assert(a == acc);
                        assert(region@ =~= esc(sub));
                        lemma_unesc_esc(sub);
                    }
                }
            }
            None
        },
    }
}

/// A lowercase hex digit byte.
pub(crate) fn is_lower_hex_exec(b: u8) -> (r: bool)
    ensures
        r == is_lower_hex_byte(b),
{
    (0x30 <= b && b <= 0x39) || (0x61 <= b && b <= 0x66)
}

/// The value of a lowercase hex digit byte.
pub(crate) fn lower_hex_val_exec(b: u8) -> (r: u8)
    requires
        is_lower_hex_byte(b),
    ensures
        r == lower_hex_val(b),
{
    if b <= 0x39 {
        b - 0x30
    } else {
        b - 0x57
    }
}

} // verus!
