//! Bluetooth device addresses in their canonical text form `AA:BB:CC:DD:EE:FF`.
use vstd::prelude::*;
use crate::text::{chars_of, string_of, upper_chars, upper, upper_char, is_hex_digit, is_hex_digit_exec};

verus! {

/// `s` without its colons.
pub open spec fn without_colons(s: Seq<char>) -> Seq<char>
    decreases s.len(),
{
    if s.len() == 0 {
        Seq::empty()
    } else if s.last() == ':' {
        without_colons(s.drop_last())
    } else {
        without_colons(s.drop_last()).push(s.last())
    }
}

/// Twelve digits laid out as six colon-separated pairs.
pub open spec fn mac_layout(u: Seq<char>) -> Seq<char> {
    Seq::new(17, |i: int| if i % 3 == 2 { ':' } else { u[(i / 3) * 2 + i % 3] })
}

/// The canonical form of an address written with or without colons: twelve
/// hexadecimal digits once the colons are dropped, upper-cased and paired.
pub open spec fn mac_spec(raw: Seq<char>) -> Option<Seq<char>> {
    let compact = without_colons(raw);
    if compact.len() == 12 && (forall|i: int| 0 <= i < 12 ==> is_hex_digit(#[trigger] compact[i])) {
        Some(mac_layout(upper(compact)))
    } else {
        None
    }
}

/// A text in canonical address form.
pub open spec fn is_canonical_mac(m: Seq<char>) -> bool {
    &&& m.len() == 17
    &&& forall|i: int|
        0 <= i < 17 ==> if i % 3 == 2 {
            #[trigger] m[i] == ':'
        } else {
            is_hex_digit(m[i]) && upper_char(m[i]) == m[i]
        }
}

/// Normalises a Bluetooth address (`AABBCCDDEEFF` or `aa:bb:...`) to
/// `AA:BB:CC:DD:EE:FF`; `None` when it is not twelve hexadecimal digits.
pub fn mac(raw: &str) -> (r: Option<String>)
    ensures
        r is Some <==> mac_spec(raw@) is Some,
        r matches Some(m) ==> m@ == mac_spec(raw@).unwrap(),
{
    let v = chars_of(raw);
    let mut compact: Vec<char> = Vec::new();
    for i in 0..v.len()
        invariant
            v@ == raw@,
            compact@ == without_colons(v@.take(i as int)),
    {
        assert(v@.take(i + 1).drop_last() =~= v@.take(i as int));
        if v[i] != ':' {
            compact.push(v[i]);
        }
    }
    assert(v@.take(v.len() as int) =~= v@);
    if compact.len() != 12 {
        return None;
    }
    for i in 0..12
        invariant
            compact.len() == 12,
            compact@ == without_colons(raw@),
            forall|j: int| 0 <= j < i ==> is_hex_digit(#[trigger] compact@[j]),
    {
        if !is_hex_digit_exec(compact[i]) {
            assert(!is_hex_digit(compact@[i as int]));
            return None;
        }
    }
    let u = upper_chars(&compact);
    let mut out: Vec<char> = Vec::new();
    for k in 0..6
        invariant
            u.len() == 12,
            out@.len() == if k == 6 { 17 } else { 3 * k },
            forall|i: int| 0 <= i < out@.len() ==> out@[i] == mac_layout(u@)[i],
    {
        out.push(u[2 * k]);
        out.push(u[2 * k + 1]);
        if k < 5 {
            out.push(':');
        }
    }
    assert(out@ =~= mac_layout(u@));
    Some(string_of(&out))
}

/// Dropping the colons of `a + b` drops those of each part.
proof fn lemma_without_colons_concat(a: Seq<char>, b: Seq<char>)
    ensures
        without_colons(a + b) == without_colons(a) + without_colons(b),
    decreases b.len(),
{
    if b.len() == 0 {
        assert(a + b =~= a);
        assert(without_colons(a) + without_colons(b) =~= without_colons(a));
    } else {
        lemma_without_colons_concat(a, b.drop_last());
        assert((a + b).drop_last() =~= a + b.drop_last());
        assert((a + b).last() == b.last());
        if b.last() != ':' {
            assert(without_colons(a) + without_colons(b.drop_last()).push(b.last()) =~= (without_colons(a)
                + without_colons(b.drop_last())).push(b.last()));
        }
    }
}

proof fn lemma_without_colons_pair(x: char, y: char)
    requires
        x != ':',
        y != ':',
    ensures
        without_colons(seq![x, y]) == seq![x, y],
        without_colons(seq![x, y, ':']) == seq![x, y],
{
    let e = Seq::<char>::empty();
    assert(seq![x].drop_last() =~= e);
    assert(seq![x].last() == x);
    assert(without_colons(e) == e);
    assert(without_colons(seq![x]) == without_colons(e).push(x));
    assert(without_colons(seq![x]) =~= seq![x]);
    assert(seq![x, y].drop_last() =~= seq![x]);
    assert(seq![x, y].last() == y);
    assert(without_colons(seq![x, y]) == without_colons(seq![x]).push(y));
    assert(without_colons(seq![x, y]) =~= seq![x, y]);
    assert(seq![x, y, ':'].drop_last() =~= seq![x, y]);
    assert(seq![x, y, ':'].last() == ':');
}

proof fn lemma_upper_hex(c: char)
    requires
        is_hex_digit(c),
    ensures
        is_hex_digit(upper_char(c)),
        upper_char(upper_char(c)) == upper_char(c),
        upper_char(c) != ':',
{
    if 97 <= (c as u32) <= 122 {
        let d = ((c as u32) - 32) as char;
        assert((d as u32) == (c as u32) - 32);
    }
}

/// Normalising an address gives a canonical address, whose digits without
/// the colons are the address's own digits upper-cased; normalising that
/// again changes nothing.
pub proof fn law_mac_canonical(raw: Seq<char>)
    ensures
        mac_spec(raw) matches Some(m) ==> is_canonical_mac(m) && without_colons(m) == upper(without_colons(raw))
            && mac_spec(m) == Some(m),
{
    if let Some(m) = mac_spec(raw) {
        let c = without_colons(raw);
        let u = upper(c);
        assert forall|i: int| 0 <= i < 12 implies is_hex_digit(#[trigger] u[i]) && upper_char(u[i]) == u[i]
            && u[i] != ':' by {
            lemma_upper_hex(c[i]);
        }
        assert(is_canonical_mac(m));
        let parts = seq![u[0], u[1], ':'] + seq![u[2], u[3], ':'] + seq![u[4], u[5], ':'] + seq![u[6], u[7], ':']
            + seq![u[8], u[9], ':'] + seq![u[10], u[11]];
        assert(m =~= parts);
        lemma_without_colons_pair(u[0], u[1]);
        lemma_without_colons_pair(u[2], u[3]);
        lemma_without_colons_pair(u[4], u[5]);
        lemma_without_colons_pair(u[6], u[7]);
        lemma_without_colons_pair(u[8], u[9]);
        lemma_without_colons_pair(u[10], u[11]);
        let p1 = seq![u[0], u[1], ':'];
        let p2 = seq![u[2], u[3], ':'];
        let p3 = seq![u[4], u[5], ':'];
        let p4 = seq![u[6], u[7], ':'];
        let p5 = seq![u[8], u[9], ':'];
        let p6 = seq![u[10], u[11]];
        lemma_without_colons_concat(p1, p2);
        lemma_without_colons_concat(p1 + p2, p3);
        lemma_without_colons_concat(p1 + p2 + p3, p4);
        lemma_without_colons_concat(p1 + p2 + p3 + p4, p5);
        lemma_without_colons_concat(p1 + p2 + p3 + p4 + p5, p6);
        assert(without_colons(m) =~= u);
        assert(upper(u) =~= u);
    }
}

} // verus!
