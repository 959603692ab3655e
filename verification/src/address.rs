//! Hosts a book source may not reach: IPv4 addresses of the private network, of
//! the machine itself, and of the link.

use vstd::prelude::*;
use crate::text::{
    all_digits, chars_of, dec, digit_char, digits_value, find, is_digit, lemma_find_from_some, lemma_split_parts_len,
    occurs_at, split_all, split_exec,
};

verus! {

/// A dotted IPv4 address as a URL gives its host: four decimal numbers, without
/// leading zeros, separated by dots.
pub open spec fn ipv4_text(a: nat, b: nat, c: nat, d: nat) -> Seq<char> {
    dec(a) + "."@ + dec(b) + "."@ + dec(c) + "."@ + dec(d)
}

/// An address `a.b.…` in 10/8, 172.16/12 or 192.168/16 (private), 127/8
/// (loopback) or 169.254/16 (link-local).
pub open spec fn private_octets(a: nat, b: nat) -> bool {
    ||| a == 10
    ||| (a == 172 && 16 <= b <= 31)
    ||| (a == 192 && b == 168)
    ||| a == 127
    ||| (a == 169 && b == 254)
}

/// A host that is a private, loopback or link-local IPv4 address.
pub open spec fn spec_private_ipv4(host: Seq<char>) -> bool {
    exists|a: nat, b: nat, c: nat, d: nat|
        a < 256 && b < 256 && c < 256 && d < 256 && host == #[trigger] ipv4_text(a, b, c, d) && private_octets(a, b)
}

/// A number below 256 in decimal, without a leading zero.
pub open spec fn is_octet(p: Seq<char>) -> bool {
    &&& 1 <= p.len() <= 3
    &&& all_digits(p)
    &&& (p.len() == 1 || p[0] != '0')
    &&& digits_value(p) < 256
}

/// The four numbers of a dotted IPv4 address, when the host is one.
pub open spec fn ipv4_octets(h: Seq<char>) -> Option<(nat, nat, nat, nat)> {
    let ps = split_all(h, "."@);
    if ps.len() == 4 && is_octet(ps[0]) && is_octet(ps[1]) && is_octet(ps[2]) && is_octet(ps[3]) {
        Some((digits_value(ps[0]), digits_value(ps[1]), digits_value(ps[2]), digits_value(ps[3])))
    } else {
        None
    }
}

proof fn lemma_digit(d: nat)
    requires
        d < 10,
    ensures
        is_digit(digit_char(d)),
        digit_char(d) as u32 == 48 + d,
        d != 0 ==> digit_char(d) != '0',
{
}

proof fn lemma_digit_back(c: char)
    requires
        is_digit(c),
    ensures
        (c as u32) >= 48,
        ((c as u32) - 48) < 10,
        digit_char(((c as u32) - 48) as nat) == c,
{
}

/// A number below 256, written in decimal, is an octet of that value.
proof fn lemma_dec_octet(n: nat)
    requires
        n < 256,
    ensures
        is_octet(dec(n)),
        digits_value(dec(n)) == n,
{
    reveal_with_fuel(dec, 3);
    reveal_with_fuel(digits_value, 4);
    if n < 10 {
        lemma_digit(n);
        let s = dec(n);
        assert(s.drop_last() =~= Seq::<char>::empty());
    } else if n < 100 {
        lemma_digit(n / 10);
        lemma_digit(n % 10);
        let s = dec(n);
        assert(s =~= seq![digit_char(n / 10), digit_char(n % 10)]);
        assert(s.drop_last() =~= seq![digit_char(n / 10)]);
        assert(s.drop_last().drop_last() =~= Seq::<char>::empty());
    } else {
        lemma_digit(n / 100);
        lemma_digit((n / 10) % 10);
        lemma_digit(n % 10);
        assert(n / 10 / 10 == n / 100);
        let s = dec(n);
        assert(s =~= seq![digit_char(n / 100), digit_char((n / 10) % 10), digit_char(n % 10)]);
        assert(s.drop_last() =~= seq![digit_char(n / 100), digit_char((n / 10) % 10)]);
        assert(s.drop_last().drop_last() =~= seq![digit_char(n / 100)]);
        assert(s.drop_last().drop_last().drop_last() =~= Seq::<char>::empty());
    }
}

/// An octet is the decimal notation of its value.
proof fn lemma_octet_dec(p: Seq<char>)
    requires
        is_octet(p),
    ensures
        dec(digits_value(p)) == p,
{
    reveal_with_fuel(dec, 3);
    reveal_with_fuel(digits_value, 4);
    lemma_digit_back(p[0]);
    if p.len() == 1 {
        assert(p.drop_last() =~= Seq::<char>::empty());
        assert(dec(digits_value(p)) =~= p);
    } else if p.len() == 2 {
        lemma_digit_back(p[1]);
        assert(p.drop_last() =~= seq![p[0]]);
        assert(p.drop_last().drop_last() =~= Seq::<char>::empty());
        let v = digits_value(p);
        assert(v / 10 == (p[0] as u32) - 48 && v % 10 == (p[1] as u32) - 48);
        assert(dec(v) =~= p);
    } else {
        lemma_digit_back(p[1]);
        lemma_digit_back(p[2]);
        assert(p.drop_last() =~= seq![p[0], p[1]]);
        assert(p.drop_last().drop_last() =~= seq![p[0]]);
        assert(p.drop_last().drop_last().drop_last() =~= Seq::<char>::empty());
        let v = digits_value(p);
        assert(v / 10 / 10 == (p[0] as u32) - 48 && (v / 10) % 10 == (p[1] as u32) - 48 && v % 10 == (p[2] as u32) - 48);
        assert(dec(v / 10) =~= seq![p[0], p[1]]);
        assert(dec(v) =~= p);
    }
}

proof fn lemma_no_dot(x: Seq<char>)
    requires
        all_digits(x),
    ensures
        forall|j: int| 0 <= j < x.len() ==> !occurs_at(x, "."@, j),
{
    reveal_strlit(".");
    assert forall|j: int| 0 <= j < x.len() implies !occurs_at(x, "."@, j) by {
        if occurs_at(x, "."@, j) {
            assert(x.subrange(j, j + 1)[0] == x[j]);
        }
    }
}

proof fn lemma_split_alone(x: Seq<char>)
    requires
        all_digits(x),
    ensures
        split_all(x, "."@) == seq![x],
{
    reveal_strlit(".");
    lemma_no_dot(x);
    lemma_find_from_some(x, "."@, 0);
}

proof fn lemma_split_front(x: Seq<char>, r: Seq<char>)
    requires
        all_digits(x),
    ensures
        split_all(x + "."@ + r, "."@) == seq![x] + split_all(r, "."@),
{
    reveal_strlit(".");
    let h = x + "."@ + r;
    lemma_no_dot(x);
    assert(h.subrange(x.len() as int, x.len() as int + 1) =~= "."@);
    assert(occurs_at(h, "."@, x.len() as int));
    lemma_find_from_some(h, "."@, 0);
    match find(h, "."@) {
        Some(i) => {
            if i < x.len() {
                assert(h.subrange(i, i + 1) =~= x.subrange(i, i + 1));
                assert(occurs_at(x, "."@, i));
            }
            assert(i == x.len());
            assert(h.subrange(0, i) =~= x);
            assert(h.subrange(i + 1, h.len() as int) =~= r);
        },
        None => {},
    }
}

proof fn lemma_split_step(h: Seq<char>) -> (rest: Seq<char>)
    requires
        split_all(h, "."@).len() > 1,
    ensures
        h == split_all(h, "."@)[0] + "."@ + rest,
        split_all(rest, "."@) == split_all(h, "."@).drop_first(),
{
    reveal_strlit(".");
    lemma_find_from_some(h, "."@, 0);
    match find(h, "."@) {
        Some(i) => {
            let rest = h.subrange(i + 1, h.len() as int);
            assert(split_all(h, "."@) == seq![h.subrange(0, i)] + split_all(rest, "."@));
            assert(split_all(h, "."@).drop_first() =~= split_all(rest, "."@));
            assert(h =~= h.subrange(0, i) + "."@ + rest);
            rest
        },
        None => {
            assert(false);
            h
        },
    }
}

proof fn lemma_split_single(h: Seq<char>)
    requires
        split_all(h, "."@).len() == 1,
    ensures
        split_all(h, "."@)[0] == h,
{
    reveal_strlit(".");
    match find(h, "."@) {
        Some(i) => {
            lemma_find_from_some(h, "."@, 0);
            lemma_split_parts_len(h.subrange(i + 1, h.len() as int), "."@);
        },
        None => {},
    }
}

proof fn lemma_ipv4_split(a: nat, b: nat, c: nat, d: nat)
    requires
        all_digits(dec(a)) && all_digits(dec(b)) && all_digits(dec(c)) && all_digits(dec(d)),
    ensures
        split_all(ipv4_text(a, b, c, d), "."@) == seq![dec(a), dec(b), dec(c), dec(d)],
{
    let dot = "."@;
    let t3 = dec(d);
    let t2 = dec(c) + dot + t3;
    let t1 = dec(b) + dot + t2;
    let t0 = dec(a) + dot + t1;
    lemma_split_alone(t3);
    lemma_split_front(dec(c), t3);
    lemma_split_front(dec(b), t2);
    lemma_split_front(dec(a), t1);
    assert(t0 =~= ipv4_text(a, b, c, d));
    assert(split_all(t0, dot) =~= seq![dec(a), dec(b), dec(c), dec(d)]);
}

/// The numbers of a dotted address are found again in its text.
proof fn lemma_ipv4_parse(a: nat, b: nat, c: nat, d: nat)
    requires
        a < 256 && b < 256 && c < 256 && d < 256,
    ensures
        ipv4_octets(ipv4_text(a, b, c, d)) == Some((a, b, c, d)),
{
    lemma_dec_octet(a);
    lemma_dec_octet(b);
    lemma_dec_octet(c);
    lemma_dec_octet(d);
    lemma_ipv4_split(a, b, c, d);
}

/// A host with the four numbers of a dotted address is that address's text.
proof fn lemma_ipv4_rejoin(h: Seq<char>)
    requires
        ipv4_octets(h) is Some,
    ensures
        ipv4_octets(h) matches Some((a, b, c, d)) && a < 256 && b < 256 && c < 256 && d < 256 && h == ipv4_text(a, b, c, d),
{
    let ps = split_all(h, "."@);
    let r1 = lemma_split_step(h);
    let r2 = lemma_split_step(r1);
    let r3 = lemma_split_step(r2);
    lemma_split_single(r3);
    assert(split_all(r3, "."@)[0] == ps[3]);
    assert(split_all(r2, "."@)[0] == ps[2]);
    assert(split_all(r1, "."@)[0] == ps[1]);
    lemma_octet_dec(ps[0]);
    lemma_octet_dec(ps[1]);
    lemma_octet_dec(ps[2]);
    lemma_octet_dec(ps[3]);
    assert(h =~= ipv4_text(digits_value(ps[0]), digits_value(ps[1]), digits_value(ps[2]), digits_value(ps[3])));
}

/// The value of an octet, or `None` when the text is not one.
fn octet_value(p: &str) -> (r: Option<u32>)
    ensures
        match r {
            Some(v) => is_octet(p@) && v == digits_value(p@),
            None => !is_octet(p@),
        },
{
    let v = chars_of(p);
    let n = v.len();
    if n < 1 || n > 3 || (n > 1 && v[0] == '0') {
        return None;
    }
    let mut value: u32 = 0;
    let mut i: usize = 0;
    assert(v@.subrange(0, 0) =~= Seq::<char>::empty());
    while i < n
        invariant
            v@ == p@,
            n == v@.len(),
            1 <= n <= 3,
            i <= n,
            all_digits(v@.subrange(0, i as int)),
            value == digits_value(v@.subrange(0, i as int)),
            value < 1000,
            i == 0 ==> value == 0,
            i == 1 ==> value < 10,
            i == 2 ==> value < 100,
        decreases n - i,
    {
        let c = v[i];
        if !('0' <= c && c <= '9') {
            proof {
                assert(!is_digit(v@[i as int]));
            }
            return None;
        }
        assert(v@.subrange(0, i + 1).drop_last() =~= v@.subrange(0, i as int));
        value = value * 10 + ((c as u32) - 48);
        i += 1;
        assert forall|k: int| 0 <= k < i implies is_digit(#[trigger] v@.subrange(0, i as int)[k]) by {
            if k < i - 1 {
                assert(v@.subrange(0, i as int)[k] == v@.subrange(0, i - 1)[k]);
            }
        }
    }
    assert(v@.subrange(0, n as int) =~= v@);
    if value < 256 {
        Some(value)
    } else {
        None
    }
}

/// Whether a host is a private, loopback or link-local IPv4 address.
pub fn private_ipv4(host: &str) -> (b: bool)
    ensures
        b == spec_private_ipv4(host@),
{
    proof {
        reveal_strlit(".");
        if spec_private_ipv4(host@) {
            let (a, b, c, d) = choose|a: nat, b: nat, c: nat, d: nat|
                a < 256 && b < 256 && c < 256 && d < 256 && host@ == #[trigger] ipv4_text(a, b, c, d) && private_octets(a, b);
            lemma_ipv4_parse(a, b, c, d);
        }
    }
    let v = chars_of(host);
    let parts = split_exec(&v, &chars_of("."));
    let ghost ps = split_all(host@, "."@);
    if parts.len() != 4 {
        return false;
    }
    assert(parts.deep_view()[0] == parts@[0]@ && parts.deep_view()[1] == parts@[1]@);
    assert(parts.deep_view()[2] == parts@[2]@ && parts.deep_view()[3] == parts@[3]@);
    let a = octet_value(parts[0].as_str());
    let b = octet_value(parts[1].as_str());
    let c = octet_value(parts[2].as_str());
    let d = octet_value(parts[3].as_str());
    match (a, b, c, d) {
        (Some(a), Some(b), Some(_), Some(_)) => {
            proof {
                lemma_ipv4_rejoin(host@);
                let (x, y, z, w) = ipv4_octets(host@)->0;
                assert(host@ == ipv4_text(x, y, z, w));
                if spec_private_ipv4(host@) {
                    let (a2, b2, c2, d2) = choose|a: nat, b: nat, c: nat, d: nat|
                        a < 256 && b < 256 && c < 256 && d < 256 && host@ == #[trigger] ipv4_text(a, b, c, d)
                            && private_octets(a, b);
                    lemma_ipv4_parse(a2, b2, c2, d2);
                }
            }
            a == 10 || (a == 172 && 16 <= b && b <= 31) || (a == 192 && b == 168) || a == 127 || (a == 169 && b == 254)
        },
        _ => false,
    }
}

} // verus!



