use vstd::prelude::*;
use crate::text::{dec_digit, int_text, nat_text};
use crate::value::signed_be;

verus! {

pub open spec fn pow256(n: nat) -> int
    decreases n,
{
    if n == 0 {
        1
    } else {
        256 * pow256((n - 1) as nat)
    }
}

/// The natural number that big-endian bytes stand for.
pub open spec fn unsigned_be(s: Seq<u8>) -> nat
    decreases s.len(),
{
    if s.len() == 0 {
        0
    } else {
        unsigned_be(s.drop_last()) * 256 + s.last() as nat
    }
}

/// Each byte replaced by its bitwise complement.
pub open spec fn complement(s: Seq<u8>) -> Seq<u8> {
    s.map_values(|x: u8| (255 - x) as u8)
}

/// The characters of decimal digits, in order.
pub open spec fn digit_chars(ds: Seq<u8>) -> Seq<char> {
    ds.map_values(|d: u8| dec_digit(d as nat))
}

proof fn lemma_signed_unsigned(s: Seq<u8>)
    requires
        s.len() > 0,
    ensures
        signed_be(s) == unsigned_be(s) as int - (if s[0] >= 128 {
            pow256(s.len())
        } else {
            0
        }),
    decreases s.len(),
{
    reveal_with_fuel(pow256, 2);
    reveal_with_fuel(unsigned_be, 2);
    if s.len() > 1 {
        let d = s.drop_last();
        lemma_signed_unsigned(d);
        let p = pow256(d.len());
        let neg: int = if s[0] >= 128 { 1 } else { 0 };
        assert(d[0] == s[0]);
        assert(signed_be(d) == unsigned_be(d) - neg * p);
        assert((unsigned_be(d) - neg * p) * 256 + s.last() == (unsigned_be(d) * 256 + s.last()) - neg * (256
            * p)) by (nonlinear_arith);
    }
}

proof fn lemma_complement(s: Seq<u8>)
    ensures
        unsigned_be(complement(s)) == pow256(s.len()) - 1 - unsigned_be(s),
    decreases s.len(),
{
    if s.len() > 0 {
        let d = s.drop_last();
        lemma_complement(d);
        assert(complement(s).drop_last() =~= complement(d));
        let p = pow256(d.len());
        assert((p - 1 - unsigned_be(d)) * 256 + (255 - s.last()) == 256 * p - 1 - (unsigned_be(d) * 256
            + s.last())) by (nonlinear_arith);
    }
}

proof fn lemma_zero_bytes(s: Seq<u8>)
    ensures
        (unsigned_be(s) == 0) == (forall|i: int| 0 <= i < s.len() ==> s[i] == 0),
    decreases s.len(),
{
    if s.len() > 0 {
        let d = s.drop_last();
        lemma_zero_bytes(d);
        if unsigned_be(s) == 0 {
            assert forall|i: int| 0 <= i < s.len() implies s[i] == 0 by {
                if i < d.len() {
                    assert(d[i] == s[i]);
                }
            }
        }
        if forall|i: int| 0 <= i < s.len() ==> s[i] == 0 {
            assert forall|i: int| 0 <= i < d.len() implies d[i] == 0 by {
                assert(d[i] == s[i]);
            }
        }
    }
}

/// Bytes divided by ten, as a quotient of the same length and a remainder.
fn div10(b: &Vec<u8>) -> (r: (Vec<u8>, u8))
    ensures
        r.0@.len() == b@.len(),
        r.1 < 10,
        unsigned_be(b@) == 10 * unsigned_be(r.0@) + r.1,
{
    let mut q: Vec<u8> = Vec::new();
    let mut rem: u32 = 0;
    let mut i: usize = 0;
    assert(b@.subrange(0, 0) =~= Seq::<u8>::empty());
    assert(q@ =~= Seq::<u8>::empty());
    while i < b.len()
        invariant
            i <= b@.len(),
            q@.len() == i,
            rem < 10,
            unsigned_be(b@.subrange(0, i as int)) == 10 * unsigned_be(q@) + rem,
        decreases b@.len() - i,
    {
        let cur: u32 = rem * 256 + b[i] as u32;
        let digit: u8 = (cur / 10) as u8;
        let ghost old_q = q@;
        let ghost old_rem = rem;
        q.push(digit);
        rem = cur % 10;
        proof {
            assert(b@.subrange(0, i + 1).drop_last() =~= b@.subrange(0, i as int));
            assert(q@.drop_last() =~= old_q);
            let uq = unsigned_be(old_q);
            assert(cur == 10 * (cur / 10) + cur % 10);
            assert((10 * uq + old_rem) * 256 + b@[i as int] == 10 * (uq * 256 + cur / 10) + cur % 10)
                by (nonlinear_arith)
                requires
                    cur == old_rem * 256 + b@[i as int],
                    cur == 10 * (cur / 10) + cur % 10,
            ;
        }
        i = i + 1;
    }
    assert(b@.subrange(0, i as int) =~= b@);
    (q, rem as u8)
}

fn all_zero(b: &Vec<u8>) -> (r: bool)
    ensures
        r == (unsigned_be(b@) == 0),
{
    proof {
        lemma_zero_bytes(b@);
    }
    let mut i: usize = 0;
    while i < b.len()
        invariant
            i <= b@.len(),
            forall|m: int| 0 <= m < i ==> b@[m] == 0,
        decreases b@.len() - i,
    {
        if b[i] != 0 {
            proof {
                lemma_zero_bytes(b@);
            }
            assert(b@[i as int] != 0);
            return false;
        }
        i = i + 1;
    }
    true
}

/// The base-10 digits, most significant first, of the bytes' value plus
/// `carry`, which must be positive.
pub(crate) fn decimal_digits(b: Vec<u8>, carry: bool) -> (r: Vec<u8>)
    requires
        unsigned_be(b@) + (if carry { 1nat } else { 0 }) > 0,
    ensures
        digit_chars(r@) == nat_text(unsigned_be(b@) + (if carry { 1nat } else { 0 })),
        forall|m: int| 0 <= m < r@.len() ==> r@[m] < 10,
{
    let ghost v0: nat = unsigned_be(b@) + (if carry { 1nat } else { 0 });
    let mut ds: Vec<u8> = Vec::new();
    let mut cur = b;
    let mut c = carry;
    let mut done = false;
    assert(digit_chars(ds@) =~= Seq::<char>::empty());
    while !done
        invariant
            forall|m: int| 0 <= m < ds@.len() ==> ds@[m] < 10,
            done ==> nat_text(v0) == digit_chars(ds@),
            !done ==> unsigned_be(cur@) + (if c { 1nat } else { 0 }) > 0 && nat_text(v0) == nat_text(
                unsigned_be(cur@) + (if c { 1nat } else { 0 }),
            ) + digit_chars(ds@),
        decreases (if done { 0nat } else { 1nat }) + unsigned_be(cur@) + (if c { 1nat } else { 0 }),
    {
        let ghost v: nat = unsigned_be(cur@) + (if c { 1nat } else { 0 });
        let (q, r) = div10(&cur);
        let t: u8 = if c { r + 1 } else { r };
        let d: u8 = if t == 10 { 0 } else { t };
        let c2 = t == 10;
        let ghost v2: nat = unsigned_be(q@) + (if c2 { 1nat } else { 0 });
        assert(v == 10 * v2 + d);
        let ghost old_ds = ds@;
        ds.insert(0, d);
        assert(digit_chars(ds@) =~= seq![dec_digit(d as nat)] + digit_chars(old_ds));
        assert(v / 10 == v2 && v % 10 == d);
        cur = q;
        c = c2;
        if !all_zero(&cur) || c {
            assert(nat_text(v) == nat_text(v2) + seq![dec_digit(d as nat)]);
            assert(nat_text(v0) == nat_text(v2) + digit_chars(ds@));
        } else {
            assert(v2 == 0);
            assert(nat_text(v) == seq![dec_digit(d as nat)]);
            assert(nat_text(v0) =~= digit_chars(ds@));
            done = true;
        }
    }
    ds
}

/// The one-character text of a decimal digit.
pub(crate) fn digit_str(d: u8) -> (r: &'static str)
    requires
        d < 10,
    ensures
        r@ == seq![dec_digit(d as nat)],
{
    proof {
        reveal_strlit("0");
        reveal_strlit("1");
        reveal_strlit("2");
        reveal_strlit("3");
        reveal_strlit("4");
        reveal_strlit("5");
        reveal_strlit("6");
        reveal_strlit("7");
        reveal_strlit("8");
        reveal_strlit("9");
    }
    match d {
        0 => "0",
        1 => "1",
        2 => "2",
        3 => "3",
        4 => "4",
        5 => "5",
        6 => "6",
        7 => "7",
        8 => "8",
        _ => "9",
    }
}

/// Base-10 text of big-endian two's-complement bytes of any length.
pub fn signed_be_text(b: &[u8]) -> (r: String)
    ensures
        r@ == int_text(signed_be(b@)),
{
    if b.len() == 0 {
        proof {
            reveal_strlit("0");
        }
        return String::from_str("0");
    }
    proof {
        lemma_signed_unsigned(b@);
        lemma_complement(b@);
    }
    let neg = b[0] >= 128;
    let mut bytes: Vec<u8> = Vec::new();
    let mut i: usize = 0;
    while i < b.len()
        invariant
            i <= b@.len(),
            bytes@.len() == i,
            forall|m: int| 0 <= m < i ==> bytes@[m] == if neg { (255 - b@[m]) as u8 } else { b@[m] },
        decreases b@.len() - i,
    {
        let x = if neg { 255 - b[i] } else { b[i] };
        bytes.push(x);
        i = i + 1;
    }
    if neg {
        assert(bytes@ =~= complement(b@));
    } else {
        assert(bytes@ =~= b@);
    }
    if !neg && all_zero(&bytes) {
        proof {
            reveal_strlit("0");
        }
        return String::from_str("0");
    }
    let ds = decimal_digits(bytes, neg);
    let mut s = if neg {
        proof {
            reveal_strlit("-");
        }
        String::from_str("-")
    } else {
        String::new()
    };
    let ghost head = s@;
    let mut j: usize = 0;
    while j < ds.len()
        invariant
            j <= ds@.len(),
            forall|m: int| 0 <= m < ds@.len() ==> ds@[m] < 10,
            s@ == head + digit_chars(ds@.subrange(0, j as int)),
        decreases ds@.len() - j,
    {
        let ghost before = s@;
        s.append(digit_str(ds[j]));
        assert(digit_chars(ds@.subrange(0, j + 1)) =~= digit_chars(ds@.subrange(0, j as int)) + seq![
            dec_digit(ds@[j as int] as nat),
        ]);
        j = j + 1;
    }
    assert(ds@.subrange(0, j as int) =~= ds@);
    s
}

/// `head` followed by the given decimal digits.
pub(crate) fn append_digits(head: String, ds: &Vec<u8>) -> (r: String)
    requires
        forall|m: int| 0 <= m < ds@.len() ==> ds@[m] < 10,
    ensures
        r@ == head@ + digit_chars(ds@),
{
    let mut s = head;
    let ghost h = s@;
    let mut j: usize = 0;
    assert(digit_chars(ds@.subrange(0, 0)) =~= Seq::<char>::empty());
    while j < ds.len()
        invariant
            j <= ds@.len(),
            forall|m: int| 0 <= m < ds@.len() ==> ds@[m] < 10,
            s@ == h + digit_chars(ds@.subrange(0, j as int)),
        decreases ds@.len() - j,
    {
        s.append(digit_str(ds[j]));
        assert(digit_chars(ds@.subrange(0, j + 1)) =~= digit_chars(ds@.subrange(0, j as int)) + seq![
            dec_digit(ds@[j as int] as nat),
        ]);
        j = j + 1;
    }
    assert(ds@.subrange(0, j as int) =~= ds@);
    s
}

/// Base-10 digits of a natural number, most significant first.
pub(crate) fn u64_digits(x: u64) -> (r: Vec<u8>)
    ensures
        digit_chars(r@) == nat_text(x as nat),
        forall|m: int| 0 <= m < r@.len() ==> r@[m] < 10,
{
    let mut ds: Vec<u8> = Vec::new();
    if x == 0 {
        ds.push(0);
        assert(digit_chars(ds@) =~= nat_text(0));
        return ds;
    }
    let mut v: u64 = x;
    let mut done = false;
    assert(digit_chars(ds@) =~= Seq::<char>::empty());
    while !done
        invariant
            forall|m: int| 0 <= m < ds@.len() ==> ds@[m] < 10,
            done ==> nat_text(x as nat) == digit_chars(ds@),
            !done ==> v > 0 && nat_text(x as nat) == nat_text(v as nat) + digit_chars(ds@),
        decreases (if done { 0nat } else { 1nat }) + v,
    {
        let d: u8 = (v % 10) as u8;
        let ghost old_v = v;
        let ghost old_ds = ds@;
        ds.insert(0, d);
        assert(digit_chars(ds@) =~= seq![dec_digit(d as nat)] + digit_chars(old_ds));
        v = v / 10;
        if v == 0 {
            assert(nat_text(old_v as nat) == seq![dec_digit(d as nat)]);
            assert(nat_text(x as nat) =~= digit_chars(ds@));
            done = true;
        } else {
            assert(nat_text(old_v as nat) == nat_text(v as nat) + seq![dec_digit(d as nat)]);
            assert(nat_text(x as nat) =~= nat_text(v as nat) + digit_chars(ds@));
        }
    }
    ds
}

} // verus!
