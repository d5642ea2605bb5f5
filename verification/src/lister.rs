//! Extraction of pack identifiers from a catalog listing page: every
//! maximal run of bytes between the fixed path marker and the next double
//! quote, kept in order of appearance, empty runs dropped, duplicates kept.

use vstd::prelude::*;
use crate::json::QUOTE;

verus! {

/// The path marker `/sound-packs/` that precedes every identifier.
pub open spec fn marker() -> Seq<u8> {
    seq![47u8, 115u8, 111u8, 117u8, 110u8, 100u8, 45u8, 112u8, 97u8, 99u8, 107u8, 115u8, 47u8]
}

pub fn marker_vec() -> (v: Vec<u8>)
    ensures
        v@ == marker(),
{
    let mut v: Vec<u8> = Vec::new();
    v.push(47);
    v.push(115);
    v.push(111);
    v.push(117);
    v.push(110);
    v.push(100);
    v.push(45);
    v.push(112);
    v.push(97);
    v.push(99);
    v.push(107);
    v.push(115);
    v.push(47);
    assert(v@ =~= marker());
    v
}

/// Identifiers found scanning from `i` while looking for the marker.
pub open spec fn scan_ids(s: Seq<u8>, i: int) -> Seq<Seq<u8>>
    decreases s.len() - i,
{
    if i < 0 || i + marker().len() > s.len() {
        seq![]
    } else if s.subrange(i, i + marker().len()) == marker() {
        token_at(s, i + marker().len(), i + marker().len())
    } else {
        scan_ids(s, i + 1)
    }
}

/// Identifiers found while inside a candidate token that began at `st`,
/// scanning from `i` for the closing quote; a page that ends before the
/// quote yields nothing further.
pub open spec fn token_at(s: Seq<u8>, st: int, i: int) -> Seq<Seq<u8>>
    decreases s.len() - i,
{
    if i < 0 || i >= s.len() {
        seq![]
    } else if s[i] == QUOTE {
        let tok = s.subrange(st, i);
        if tok.len() > 0 {
            seq![tok] + scan_ids(s, i + 1)
        } else {
            scan_ids(s, i + 1)
        }
    } else {
        token_at(s, st, i + 1)
    }
}

#[verifier::loop_isolation(false)]
fn marker_match(s: &Vec<u8>, i: usize) -> (r: bool)
    requires
        i <= s@.len(),
        s@.len() - i >= 13,
    ensures
        r == (s@.subrange(i as int, i as int + marker().len() as int) == marker()),
{
    let m = marker_vec();
    let n = s.len();
    let mut k: usize = 0;
    while k < 13
        invariant
            k <= 13,
            m@ == marker(),
            i + 13 <= s@.len(),
            forall|q: int| 0 <= q < k ==> s@[i + q] == marker()[q],
        decreases 13 - k,
    {
        if s[i + k] != m[k] {
            assert(s@.subrange(i as int, i as int + 13)[k as int] != marker()[k as int]);
            return false;
        }
        k = k + 1;
    }
    assert(s@.subrange(i as int, i as int + 13) =~= marker());
    true
}

#[verifier::loop_isolation(false)]
fn copy_range(s: &Vec<u8>, a: usize, b: usize) -> (r: Vec<u8>)
    requires
        a <= b <= s@.len(),
    ensures
        r@ == s@.subrange(a as int, b as int),
{
    let mut v: Vec<u8> = Vec::new();
    let mut k: usize = a;
    while k < b
        invariant
            a <= k <= b <= s@.len(),
            v@ == s@.subrange(a as int, k as int),
        decreases b - k,
    {
        v.push(s[k]);
        assert(v@ =~= s@.subrange(a as int, k as int + 1));
        k = k + 1;
    }
    v
}

/// All pack identifiers on a listing page, in order of first appearance,
/// with empty extractions dropped and duplicates preserved.
#[verifier::loop_isolation(false)]
pub fn extract_pack_ids(body: &Vec<u8>) -> (r: Vec<Vec<u8>>)
    ensures
        r.deep_view() == scan_ids(body@, 0),
{
    let mut acc: Vec<Vec<u8>> = Vec::new();
    let mut i: usize = 0;
    let mut tok_start: Option<usize> = None;
    assert(acc.deep_view() =~~= Seq::<Seq<u8>>::empty());
    loop
        invariant
            i <= body@.len(),
            match tok_start {
                None => scan_ids(body@, 0) == acc.deep_view() + scan_ids(body@, i as int),
                Some(st) => st <= i && scan_ids(body@, 0) == acc.deep_view() + token_at(
                    body@,
                    st as int,
                    i as int,
                ),
            },
        decreases body@.len() - i,
    {
        match tok_start {
            None => {
                if body.len() - i < 13 {
                    assert(scan_ids(body@, i as int) =~~= Seq::<Seq<u8>>::empty());
                    assert(acc.deep_view() =~~= acc.deep_view() + scan_ids(body@, i as int));
                    return acc;
                }
                if marker_match(body, i) {
                    assert(scan_ids(body@, i as int) == token_at(
                        body@,
                        i as int + 13,
                        i as int + 13,
                    ));
                    tok_start = Some(i + 13);
                    i = i + 13;
                } else {
                    assert(scan_ids(body@, i as int) == scan_ids(body@, i as int + 1));
                    i = i + 1;
                }
            },
            Some(st) => {
                if i >= body.len() {
                    assert(token_at(body@, st as int, i as int) =~~= Seq::<Seq<u8>>::empty());
                    assert(acc.deep_view() =~~= acc.deep_view() + token_at(
                        body@,
                        st as int,
                        i as int,
                    ));
                    return acc;
                }
                if body[i] == QUOTE {
                    if i > st {
                        let tok = copy_range(body, st, i);
                        let ghost pre = acc.deep_view();
                        let ghost tokv = tok@;
                        acc.push(tok);
                        assert(acc.deep_view() =~~= pre.push(tokv));
                        assert(pre.push(tokv) =~~= pre + seq![tokv]);
                        assert(token_at(body@, st as int, i as int) == seq![tokv] + scan_ids(
                            body@,
                            i as int + 1,
                        ));
                        assert(pre + (seq![tokv] + scan_ids(body@, i as int + 1)) =~~= (pre
                            + seq![tokv]) + scan_ids(body@, i as int + 1));
                    } else {
                        assert(body@.subrange(st as int, i as int).len() == 0);
                    }
                    tok_start = None;
                    i = i + 1;
                } else {
                    i = i + 1;
                }
            },
        }
    }
}

} // verus!
