//! The pack configuration: its data model, the schema-level parser over the
//! byte primitives of `json`, and the rendering used when a configuration is
//! printed.

use vstd::prelude::*;
use crate::text::{all_digits, dec_value};
use crate::json::{
    QUOTE, COLON, COMMA, LBRACE, RBRACE, LBRACKET, RBRACKET, ws_end, skip_ws, parse_str_body,
    read_str_body, lemma_str_body_bounds, lemma_ws_end_bounds, parse_pair, read_pair,
    lemma_parse_pair_bounds, dec_value_of, parse_bool, read_bool, skip_value, do_skip_value,
    lemma_skip_structured_bounds,
};

verus! {

/// One timing entry: a key code mapped to a start offset and a duration,
/// both in milliseconds.
pub type DefineEntry = (u64, (u64, u64));

pub open spec fn keys_unique(es: Seq<DefineEntry>) -> bool {
    forall|a: int, b: int| 0 <= a < b < es.len() ==> es[a].0 != es[b].0
}

pub open spec fn has_key(es: Seq<DefineEntry>, k: u64) -> bool {
    exists|a: int| 0 <= a < es.len() && es[a].0 == k
}

/// Insert-or-replace: a later entry for an already-seen key replaces the
/// pair at the key's original position; a new key is appended at the end.
pub open spec fn upsert(es: Seq<DefineEntry>, k: u64, pr: (u64, u64)) -> Seq<DefineEntry>
    decreases es.len(),
{
    if es.len() == 0 {
        seq![(k, pr)]
    } else if es[0].0 == k {
        seq![(k, pr)] + es.drop_first()
    } else {
        seq![es[0]] + upsert(es.drop_first(), k, pr)
    }
}

pub proof fn lemma_upsert_keys(es: Seq<DefineEntry>, k: u64, pr: (u64, u64))
    requires
        keys_unique(es),
    ensures
        keys_unique(upsert(es, k, pr)),
        forall|q: u64| has_key(upsert(es, k, pr), q) <==> has_key(es, q) || q == k,
        has_key(upsert(es, k, pr), k),
        upsert(es, k, pr).len() <= es.len() + 1,
    decreases es.len(),
{
    let r = upsert(es, k, pr);
    if es.len() == 0 {
        assert(r[0].0 == k);
        assert forall|q: u64| has_key(r, q) <==> has_key(es, q) || q == k by {
            if has_key(es, q) {
                let a = choose|a: int| 0 <= a < es.len() && es[a].0 == q;
            }
            if has_key(r, q) {
                let a = choose|a: int| 0 <= a < r.len() && r[a].0 == q;
                assert(a == 0);
            }
        }
    } else if es[0].0 == k {
        assert(r[0].0 == k);
        assert forall|q: u64| has_key(r, q) <==> has_key(es, q) || q == k by {
            if has_key(es, q) {
                let a = choose|a: int| 0 <= a < es.len() && es[a].0 == q;
                if a > 0 {
                    assert(r[a].0 == q);
                } else {
                    assert(r[0].0 == k);
                }
            }
            if has_key(r, q) {
                let a = choose|a: int| 0 <= a < r.len() && r[a].0 == q;
                if a > 0 {
                    assert(es[a].0 == q);
                } else {
                    assert(es[0].0 == k);
                }
            }
        }
        assert forall|a: int, b: int| 0 <= a < b < r.len() implies r[a].0 != r[b].0 by {
            if a > 0 {
                assert(es[a].0 != es[b].0);
            } else {
                assert(es[0].0 != es[b].0);
            }
        }
    } else {
        let dl = es.drop_first();
        assert(keys_unique(dl)) by {
            assert forall|a: int, b: int| 0 <= a < b < dl.len() implies dl[a].0 != dl[b].0 by {
                assert(es[a + 1].0 != es[b + 1].0);
            }
        }
        lemma_upsert_keys(dl, k, pr);
        let rr = upsert(dl, k, pr);
        assert(r == seq![es[0]] + rr);
        assert(!has_key(dl, es[0].0)) by {
            if has_key(dl, es[0].0) {
                let a = choose|a: int| 0 <= a < dl.len() && dl[a].0 == es[0].0;
                assert(es[a + 1].0 == es[0].0);
            }
        }
        assert(!has_key(rr, es[0].0));
        assert forall|a: int, b: int| 0 <= a < b < r.len() implies r[a].0 != r[b].0 by {
            if a > 0 {
                assert(rr[a - 1].0 != rr[b - 1].0);
            } else {
                assert(r[b] == rr[b - 1]);
                assert(has_key(rr, rr[b - 1].0));
            }
        }
        assert(has_key(rr, k));
        let w = choose|c: int| 0 <= c < rr.len() && rr[c].0 == k;
        assert(r[w + 1].0 == k);
        assert(has_key(r, k));
        assert forall|q: u64| has_key(r, q) <==> has_key(es, q) || q == k by {
            if has_key(r, q) {
                let a = choose|a: int| 0 <= a < r.len() && r[a].0 == q;
                if a > 0 {
                    assert(has_key(rr, q));
                    if has_key(dl, q) {
                        let c = choose|c: int| 0 <= c < dl.len() && dl[c].0 == q;
                        assert(es[c + 1].0 == q);
                    }
                } else {
                    assert(es[0].0 == q);
                }
            }
            if has_key(es, q) {
                let a = choose|a: int| 0 <= a < es.len() && es[a].0 == q;
                if a > 0 {
                    assert(dl[a - 1].0 == q);
                    assert(has_key(dl, q));
                    assert(has_key(rr, q));
                    let c = choose|c: int| 0 <= c < rr.len() && rr[c].0 == q;
                    assert(r[c + 1].0 == q);
                } else {
                    assert(r[0].0 == q);
                }
            }
            if q == k {
                assert(r[w + 1].0 == k);
            }
        }
    }
}

/// A key not yet present is appended at the end.
pub proof fn lemma_upsert_append(es: Seq<DefineEntry>, k: u64, pr: (u64, u64))
    requires
        !has_key(es, k),
    ensures
        upsert(es, k, pr) == es.push((k, pr)),
    decreases es.len(),
{
    if es.len() == 0 {
        assert(upsert(es, k, pr) =~= es.push((k, pr)));
    } else {
        assert(es[0].0 != k);
        assert(!has_key(es.drop_first(), k)) by {
            if has_key(es.drop_first(), k) {
                let a = choose|a: int| 0 <= a < es.drop_first().len() && es.drop_first()[a].0
                    == k;
                assert(es[a + 1].0 == k);
            }
        }
        lemma_upsert_append(es.drop_first(), k, pr);
        assert(seq![es[0]] + es.drop_first().push((k, pr)) =~= es.push((k, pr)));
    }
}

/// Insert-or-replace on the executable representation.
pub fn upsert_entries(es: &mut Vec<DefineEntry>, k: u64, pr: (u64, u64))
    ensures
        final(es)@ == upsert(old(es)@, k, pr),
{
    let mut m: usize = 0;
    while m < es.len()
        invariant
            m <= es@.len(),
            es@ == old(es)@,
            forall|q: int| 0 <= q < m ==> (#[trigger] es@[q]).0 != k,
        decreases es@.len() - m,
    {
        if es[m].0 == k {
            es.set(m, (k, pr));
            proof {
                lemma_upsert_set(old(es)@, k, pr, m as int);
            }
            return ;
        }
        m = m + 1;
    }
    proof {
        assert(!has_key(es@, k));
        lemma_upsert_append(es@, k, pr);
    }
    es.push((k, pr));
}

/// Replacing at the first position holding the key is what `upsert` does.
proof fn lemma_upsert_set(es: Seq<DefineEntry>, k: u64, pr: (u64, u64), m: int)
    requires
        0 <= m < es.len(),
        es[m].0 == k,
        forall|q: int| 0 <= q < m ==> (#[trigger] es[q]).0 != k,
    ensures
        upsert(es, k, pr) == es.update(m, (k, pr)),
    decreases es.len(),
{
    if m == 0 {
        assert(upsert(es, k, pr) =~= es.update(0, (k, pr)));
    } else {
        assert(es[0].0 != k);
        let dl = es.drop_first();
        assert(dl[m - 1].0 == k);
        assert forall|q: int| 0 <= q < m - 1 implies (#[trigger] dl[q]).0 != k by {
            assert(es[q + 1].0 != k);
        }
        lemma_upsert_set(dl, k, pr, m - 1);
        assert(seq![es[0]] + dl.update(m - 1, (k, pr)) =~= es.update(m, (k, pr)));
    }
}

/// Key text of a defines entry: the whole string must be decimal digits
/// denoting a value that fits in `u64`.
pub open spec fn key_value(t: Seq<u8>) -> Option<u64> {
    if t.len() >= 1 && all_digits(t) && dec_value(t) <= u64::MAX {
        Some(dec_value(t) as u64)
    } else {
        None
    }
}

pub fn read_key_value(t: &Vec<u8>) -> (r: Option<u64>)
    ensures
        r == key_value(t@),
{
    if t.len() == 0 {
        return None;
    }
    let mut m: usize = 0;
    while m < t.len()
        invariant
            m <= t@.len(),
            forall|q: int| 0 <= q < m ==> crate::text::is_digit(#[trigger] t@[q]),
        decreases t@.len() - m,
    {
        if t[m] < 48 || t[m] > 57 {
            assert(!all_digits(t@));
            return None;
        }
        m = m + 1;
    }
    assert(all_digits(t@));
    assert(t@.subrange(0, t@.len() as int) =~= t@);
    match dec_value_of(t, 0, t.len()) {
        Some(v) => Some(v),
        None => None,
    }
}

/// Entries of the `defines` object, starting right after the opening brace;
/// the accumulated entries live in `acc`.
pub open spec fn parse_defines_entries(s: Seq<u8>, i: int, acc: Seq<DefineEntry>) -> Option<
    (Seq<DefineEntry>, int),
>
    decreases s.len() - i,
    when 0 <= i <= s.len()
    via parse_defines_entries_dec
{
    let j = ws_end(s, i);
    if j < s.len() && s[j] == QUOTE {
        match parse_str_body(s, j + 1) {
            None => None,
            Some((kt, p1)) => match key_value(kt) {
                None => None,
                Some(kv) => {
                    let p2 = ws_end(s, p1);
                    if p2 < s.len() && s[p2] == COLON {
                        match parse_pair(s, p2 + 1) {
                            None => None,
                            Some((pr, p3)) => {
                                let p4 = ws_end(s, p3);
                                if p4 < s.len() && s[p4] == COMMA {
                                    parse_defines_entries(s, p4 + 1, upsert(acc, kv, pr))
                                } else if p4 < s.len() && s[p4] == RBRACE {
                                    Some((upsert(acc, kv, pr), p4 + 1))
                                } else {
                                    None
                                }
                            },
                        }
                    } else {
                        None
                    }
                },
            },
        }
    } else {
        None
    }
}

#[via_fn]
proof fn parse_defines_entries_dec(s: Seq<u8>, i: int, acc: Seq<DefineEntry>) {
    lemma_ws_end_bounds(s, i);
    let j = ws_end(s, i);
    if j < s.len() && s[j] == QUOTE {
        lemma_str_body_bounds(s, j + 1);
        match parse_str_body(s, j + 1) {
            None => {},
            Some((kt, p1)) => {
                lemma_ws_end_bounds(s, p1);
                let p2 = ws_end(s, p1);
                if p2 < s.len() && s[p2] == COLON {
                    lemma_parse_pair_bounds(s, p2 + 1);
                    match parse_pair(s, p2 + 1) {
                        None => {},
                        Some((pr, p3)) => {
                            lemma_ws_end_bounds(s, p3);
                        },
                    }
                }
            },
        }
    }
}

pub proof fn lemma_parse_defines_entries_bounds(s: Seq<u8>, i: int, acc: Seq<DefineEntry>)
    requires
        0 <= i <= s.len(),
    ensures
        parse_defines_entries(s, i, acc) matches Some(p) ==> i < p.1 <= s.len(),
    decreases s.len() - i,
{
    lemma_ws_end_bounds(s, i);
    let j = ws_end(s, i);
    if j < s.len() && s[j] == QUOTE {
        lemma_str_body_bounds(s, j + 1);
        match parse_str_body(s, j + 1) {
            None => {},
            Some((kt, p1)) => {
                lemma_ws_end_bounds(s, p1);
                let p2 = ws_end(s, p1);
                if p2 < s.len() && s[p2] == COLON {
                    lemma_parse_pair_bounds(s, p2 + 1);
                    match parse_pair(s, p2 + 1) {
                        None => {},
                        Some((pr, p3)) => {
                            lemma_ws_end_bounds(s, p3);
                            let p4 = ws_end(s, p3);
                            if p4 < s.len() && s[p4] == COMMA {
                                match key_value(kt) {
                                    None => {},
                                    Some(kv) => {
                                        lemma_parse_defines_entries_bounds(
                                            s,
                                            p4 + 1,
                                            upsert(acc, kv, pr),
                                        );
                                    },
                                }
                            }
                        },
                    }
                }
            },
        }
    }
}

/// All accumulated keys stay unique through the entry parser.
pub proof fn lemma_parse_defines_entries_unique(s: Seq<u8>, i: int, acc: Seq<DefineEntry>)
    requires
        0 <= i <= s.len(),
        keys_unique(acc),
    ensures
        parse_defines_entries(s, i, acc) matches Some(p) ==> keys_unique(p.0),
    decreases s.len() - i,
{
    lemma_ws_end_bounds(s, i);
    let j = ws_end(s, i);
    if j < s.len() && s[j] == QUOTE {
        lemma_str_body_bounds(s, j + 1);
        match parse_str_body(s, j + 1) {
            None => {},
            Some((kt, p1)) => match key_value(kt) {
                None => {},
                Some(kv) => {
                    lemma_ws_end_bounds(s, p1);
                    let p2 = ws_end(s, p1);
                    if p2 < s.len() && s[p2] == COLON {
                        lemma_parse_pair_bounds(s, p2 + 1);
                        match parse_pair(s, p2 + 1) {
                            None => {},
                            Some((pr, p3)) => {
                                lemma_ws_end_bounds(s, p3);
                                let p4 = ws_end(s, p3);
                                lemma_upsert_keys(acc, kv, pr);
                                if p4 < s.len() && s[p4] == COMMA {
                                    lemma_parse_defines_entries_unique(
                                        s,
                                        p4 + 1,
                                        upsert(acc, kv, pr),
                                    );
                                }
                            },
                        }
                    }
                },
            },
        }
    }
}

/// The whole `defines` object: `{}`, or one or more `"key": [a, b]` entries.
pub open spec fn parse_defines(s: Seq<u8>, i: int) -> Option<(Seq<DefineEntry>, int)> {
    let j = ws_end(s, i);
    if 0 <= j < s.len() && s[j] == LBRACE {
        let k = ws_end(s, j + 1);
        if k < s.len() && s[k] == RBRACE {
            Some((seq![], k + 1))
        } else {
            parse_defines_entries(s, j + 1, seq![])
        }
    } else {
        None
    }
}

pub proof fn lemma_parse_defines_bounds(s: Seq<u8>, i: int)
    requires
        0 <= i <= s.len(),
    ensures
        parse_defines(s, i) matches Some(p) ==> i < p.1 <= s.len() && keys_unique(p.0),
{
    lemma_ws_end_bounds(s, i);
    let j = ws_end(s, i);
    if 0 <= j < s.len() && s[j] == LBRACE {
        lemma_ws_end_bounds(s, j + 1);
        lemma_parse_defines_entries_bounds(s, j + 1, seq![]);
        lemma_parse_defines_entries_unique(s, j + 1, seq![]);
    }
}

fn read_defines_entries(s: &Vec<u8>, i: usize, acc: Vec<DefineEntry>) -> (r: Option<
    (Vec<DefineEntry>, usize),
>)
    requires
        i <= s@.len(),
    ensures
        match r {
            Some(p) => parse_defines_entries(s@, i as int, acc@)
                == Some((p.0@, p.1 as int)) && i < p.1 <= s@.len(),
            None => parse_defines_entries(s@, i as int, acc@) is None,
        },
    decreases s@.len() - i,
{
    let j = skip_ws(s, i);
    if j < s.len() && s[j] == QUOTE {
        match read_str_body(s, j + 1) {
            None => None,
            Some((kt, p1)) => match read_key_value(&kt) {
                None => None,
                Some(kv) => {
                    let p2 = skip_ws(s, p1);
                    if p2 < s.len() && s[p2] == COLON {
                        match read_pair(s, p2 + 1) {
                            None => None,
                            Some((pr, p3)) => {
                                let p4 = skip_ws(s, p3);
                                let mut acc2 = acc;
                                upsert_entries(&mut acc2, kv, pr);
                                if p4 < s.len() && s[p4] == COMMA {
                                    read_defines_entries(s, p4 + 1, acc2)
                                } else if p4 < s.len() && s[p4] == RBRACE {
                                    Some((acc2, p4 + 1))
                                } else {
                                    None
                                }
                            },
                        }
                    } else {
                        None
                    }
                },
            },
        }
    } else {
        None
    }
}

pub fn read_defines(s: &Vec<u8>, i: usize) -> (r: Option<(Vec<DefineEntry>, usize)>)
    requires
        i <= s@.len(),
    ensures
        match r {
            Some(p) => parse_defines(s@, i as int) == Some((p.0@, p.1 as int)) && i < p.1
                <= s@.len(),
            None => parse_defines(s@, i as int) is None,
        },
{
    let j = skip_ws(s, i);
    if j < s.len() && s[j] == LBRACE {
        let k = skip_ws(s, j + 1);
        if k < s.len() && s[k] == RBRACE {
            Some((Vec::new(), k + 1))
        } else {
            read_defines_entries(s, j + 1, Vec::new())
        }
    } else {
        None
    }
}

/// The `tags` array: zero or more strings.
pub open spec fn parse_tag_items(s: Seq<u8>, i: int, acc: Seq<Seq<u8>>) -> Option<
    (Seq<Seq<u8>>, int),
>
    decreases s.len() - i,
    when 0 <= i <= s.len()
    via parse_tag_items_dec
{
    let j = ws_end(s, i);
    if j < s.len() && s[j] == QUOTE {
        match parse_str_body(s, j + 1) {
            None => None,
            Some((t, p1)) => {
                let p2 = ws_end(s, p1);
                if p2 < s.len() && s[p2] == COMMA {
                    parse_tag_items(s, p2 + 1, acc.push(t))
                } else if p2 < s.len() && s[p2] == RBRACKET {
                    Some((acc.push(t), p2 + 1))
                } else {
                    None
                }
            },
        }
    } else {
        None
    }
}

#[via_fn]
proof fn parse_tag_items_dec(s: Seq<u8>, i: int, acc: Seq<Seq<u8>>) {
    lemma_ws_end_bounds(s, i);
    let j = ws_end(s, i);
    if j < s.len() && s[j] == QUOTE {
        lemma_str_body_bounds(s, j + 1);
        match parse_str_body(s, j + 1) {
            None => {},
            Some((t, p1)) => {
                lemma_ws_end_bounds(s, p1);
            },
        }
    }
}

pub proof fn lemma_parse_tag_items_bounds(s: Seq<u8>, i: int, acc: Seq<Seq<u8>>)
    requires
        0 <= i <= s.len(),
    ensures
        parse_tag_items(s, i, acc) matches Some(p) ==> i < p.1 <= s.len(),
    decreases s.len() - i,
{
    lemma_ws_end_bounds(s, i);
    let j = ws_end(s, i);
    if j < s.len() && s[j] == QUOTE {
        lemma_str_body_bounds(s, j + 1);
        match parse_str_body(s, j + 1) {
            None => {},
            Some((t, p1)) => {
                lemma_ws_end_bounds(s, p1);
                let p2 = ws_end(s, p1);
                if p2 < s.len() && s[p2] == COMMA {
                    lemma_parse_tag_items_bounds(s, p2 + 1, acc.push(t));
                }
            },
        }
    }
}

pub open spec fn parse_tags(s: Seq<u8>, i: int) -> Option<(Seq<Seq<u8>>, int)> {
    let j = ws_end(s, i);
    if 0 <= j < s.len() && s[j] == LBRACKET {
        let k = ws_end(s, j + 1);
        if k < s.len() && s[k] == RBRACKET {
            Some((seq![], k + 1))
        } else {
            parse_tag_items(s, j + 1, seq![])
        }
    } else {
        None
    }
}

pub proof fn lemma_parse_tags_bounds(s: Seq<u8>, i: int)
    requires
        0 <= i <= s.len(),
    ensures
        parse_tags(s, i) matches Some(p) ==> i < p.1 <= s.len(),
{
    lemma_ws_end_bounds(s, i);
    let j = ws_end(s, i);
    if 0 <= j < s.len() && s[j] == LBRACKET {
        lemma_ws_end_bounds(s, j + 1);
        lemma_parse_tag_items_bounds(s, j + 1, seq![]);
    }
}

fn read_tag_items(s: &Vec<u8>, i: usize, acc: Vec<Vec<u8>>) -> (r: Option<(Vec<Vec<u8>>, usize)>)
    requires
        i <= s@.len(),
    ensures
        match r {
            Some(p) => parse_tag_items(s@, i as int, acc.deep_view())
                == Some((p.0.deep_view(), p.1 as int)) && i < p.1 <= s@.len(),
            None => parse_tag_items(s@, i as int, acc.deep_view()) is None,
        },
    decreases s@.len() - i,
{
    let ghost acc0 = acc.deep_view();
    let j = skip_ws(s, i);
    if j < s.len() && s[j] == QUOTE {
        match read_str_body(s, j + 1) {
            None => None,
            Some((t, p1)) => {
                let p2 = skip_ws(s, p1);
                let ghost tv = t@;
                let mut acc2 = acc;
                acc2.push(t);
                assert(acc2.deep_view() =~~= acc0.push(tv));
                if p2 < s.len() && s[p2] == COMMA {
                    read_tag_items(s, p2 + 1, acc2)
                } else if p2 < s.len() && s[p2] == RBRACKET {
                    Some((acc2, p2 + 1))
                } else {
                    None
                }
            },
        }
    } else {
        None
    }
}

pub fn read_tags(s: &Vec<u8>, i: usize) -> (r: Option<(Vec<Vec<u8>>, usize)>)
    requires
        i <= s@.len(),
    ensures
        match r {
            Some(p) => parse_tags(s@, i as int) == Some((p.0.deep_view(), p.1 as int)) && i < p.1
                <= s@.len(),
            None => parse_tags(s@, i as int) is None,
        },
{
    let j = skip_ws(s, i);
    if j < s.len() && s[j] == LBRACKET {
        let k = skip_ws(s, j + 1);
        if k < s.len() && s[k] == RBRACKET {
            let empty: Vec<Vec<u8>> = Vec::new();
            assert(empty.deep_view() =~~= Seq::<Seq<u8>>::empty());
            Some((empty, k + 1))
        } else {
            let empty: Vec<Vec<u8>> = Vec::new();
            assert(empty.deep_view() =~~= Seq::<Seq<u8>>::empty());
            read_tag_items(s, j + 1, empty)
        }
    } else {
        None
    }
}


/// The field name `default` as bytes.
pub open spec fn kw_default() -> Seq<u8> {
    seq![100u8, 101u8, 102u8, 97u8, 117u8, 108u8, 116u8]
}

/// The field name `defines` as bytes.
pub open spec fn kw_defines() -> Seq<u8> {
    seq![100u8, 101u8, 102u8, 105u8, 110u8, 101u8, 115u8]
}

/// The field name `id` as bytes.
pub open spec fn kw_id() -> Seq<u8> {
    seq![105u8, 100u8]
}

/// The field name `includes_numpad` as bytes.
pub open spec fn kw_includes_numpad() -> Seq<u8> {
    seq![105u8, 110u8, 99u8, 108u8, 117u8, 100u8, 101u8, 115u8, 95u8, 110u8, 117u8, 109u8, 112u8, 97u8, 100u8]
}

/// The field name `key_define_type` as bytes.
pub open spec fn kw_key_define_type() -> Seq<u8> {
    seq![107u8, 101u8, 121u8, 95u8, 100u8, 101u8, 102u8, 105u8, 110u8, 101u8, 95u8, 116u8, 121u8, 112u8, 101u8]
}

/// The field name `name` as bytes.
pub open spec fn kw_name() -> Seq<u8> {
    seq![110u8, 97u8, 109u8, 101u8]
}

/// The field name `sound` as bytes.
pub open spec fn kw_sound() -> Seq<u8> {
    seq![115u8, 111u8, 117u8, 110u8, 100u8]
}

/// The field name `tags` as bytes.
pub open spec fn kw_tags() -> Seq<u8> {
    seq![116u8, 97u8, 103u8, 115u8]
}

fn kw_default_bytes() -> (v: Vec<u8>)
    ensures
        v@ == kw_default(),
{
    let mut v: Vec<u8> = Vec::new();
    v.push(100);
    v.push(101);
    v.push(102);
    v.push(97);
    v.push(117);
    v.push(108);
    v.push(116);
    assert(v@ =~= kw_default());
    v
}

fn kw_defines_bytes() -> (v: Vec<u8>)
    ensures
        v@ == kw_defines(),
{
    let mut v: Vec<u8> = Vec::new();
    v.push(100);
    v.push(101);
    v.push(102);
    v.push(105);
    v.push(110);
    v.push(101);
    v.push(115);
    assert(v@ =~= kw_defines());
    v
}

fn kw_id_bytes() -> (v: Vec<u8>)
    ensures
        v@ == kw_id(),
{
    let mut v: Vec<u8> = Vec::new();
    v.push(105);
    v.push(100);
    assert(v@ =~= kw_id());
    v
}

fn kw_includes_numpad_bytes() -> (v: Vec<u8>)
    ensures
        v@ == kw_includes_numpad(),
{
    let mut v: Vec<u8> = Vec::new();
    v.push(105);
    v.push(110);
    v.push(99);
    v.push(108);
    v.push(117);
    v.push(100);
    v.push(101);
    v.push(115);
    v.push(95);
    v.push(110);
    v.push(117);
    v.push(109);
    v.push(112);
    v.push(97);
    v.push(100);
    assert(v@ =~= kw_includes_numpad());
    v
}

fn kw_key_define_type_bytes() -> (v: Vec<u8>)
    ensures
        v@ == kw_key_define_type(),
{
    let mut v: Vec<u8> = Vec::new();
    v.push(107);
    v.push(101);
    v.push(121);
    v.push(95);
    v.push(100);
    v.push(101);
    v.push(102);
    v.push(105);
    v.push(110);
    v.push(101);
    v.push(95);
    v.push(116);
    v.push(121);
    v.push(112);
    v.push(101);
    assert(v@ =~= kw_key_define_type());
    v
}

fn kw_name_bytes() -> (v: Vec<u8>)
    ensures
        v@ == kw_name(),
{
    let mut v: Vec<u8> = Vec::new();
    v.push(110);
    v.push(97);
    v.push(109);
    v.push(101);
    assert(v@ =~= kw_name());
    v
}

fn kw_sound_bytes() -> (v: Vec<u8>)
    ensures
        v@ == kw_sound(),
{
    let mut v: Vec<u8> = Vec::new();
    v.push(115);
    v.push(111);
    v.push(117);
    v.push(110);
    v.push(100);
    assert(v@ =~= kw_sound());
    v
}

fn kw_tags_bytes() -> (v: Vec<u8>)
    ensures
        v@ == kw_tags(),
{
    let mut v: Vec<u8> = Vec::new();
    v.push(116);
    v.push(97);
    v.push(103);
    v.push(115);
    assert(v@ =~= kw_tags());
    v
}

/// Which schema field a key names.
pub enum FieldKind {
    FDefault,
    FDefines,
    FId,
    FIncludesNumpad,
    FKeyDefineType,
    FName,
    FSound,
    FTags,
    FUnknown,
}

pub open spec fn classify_key(t: Seq<u8>) -> FieldKind {
    if t == kw_default() {
        FieldKind::FDefault
    } else if t == kw_defines() {
        FieldKind::FDefines
    } else if t == kw_id() {
        FieldKind::FId
    } else if t == kw_includes_numpad() {
        FieldKind::FIncludesNumpad
    } else if t == kw_key_define_type() {
        FieldKind::FKeyDefineType
    } else if t == kw_name() {
        FieldKind::FName
    } else if t == kw_sound() {
        FieldKind::FSound
    } else if t == kw_tags() {
        FieldKind::FTags
    } else {
        FieldKind::FUnknown
    }
}

fn eq_bytes(a: &Vec<u8>, b: &Vec<u8>) -> (r: bool)
    ensures
        r == (a@ == b@),
{
    if a.len() != b.len() {
        assert(a@ != b@);
        return false;
    }
    let mut m: usize = 0;
    while m < a.len()
        invariant
            m <= a@.len(),
            a@.len() == b@.len(),
            forall|q: int| 0 <= q < m ==> a@[q] == b@[q],
        decreases a@.len() - m,
    {
        if a[m] != b[m] {
            return false;
        }
        m = m + 1;
    }
    assert(a@ =~= b@);
    true
}

fn classify_key_bytes(t: &Vec<u8>) -> (r: FieldKind)
    ensures
        r == classify_key(t@),
{
    if eq_bytes(t, &kw_default_bytes()) {
        FieldKind::FDefault
    } else if eq_bytes(t, &kw_defines_bytes()) {
        FieldKind::FDefines
    } else if eq_bytes(t, &kw_id_bytes()) {
        FieldKind::FId
    } else if eq_bytes(t, &kw_includes_numpad_bytes()) {
        FieldKind::FIncludesNumpad
    } else if eq_bytes(t, &kw_key_define_type_bytes()) {
        FieldKind::FKeyDefineType
    } else if eq_bytes(t, &kw_name_bytes()) {
        FieldKind::FName
    } else if eq_bytes(t, &kw_sound_bytes()) {
        FieldKind::FSound
    } else if eq_bytes(t, &kw_tags_bytes()) {
        FieldKind::FTags
    } else {
        FieldKind::FUnknown
    }
}

/// Field values seen so far while reading the top-level object.
pub ghost struct CfgV {
    pub default_v: Option<bool>,
    pub defines_v: Option<Seq<DefineEntry>>,
    pub id_v: Option<Seq<u8>>,
    pub includes_numpad_v: Option<bool>,
    pub key_define_type_v: Option<Seq<u8>>,
    pub name_v: Option<Seq<u8>>,
    pub sound_v: Option<Seq<u8>>,
    pub tags_v: Option<Seq<Seq<u8>>>,
}

pub open spec fn empty_cfg() -> CfgV {
    CfgV {
        default_v: None,
        defines_v: None,
        id_v: None,
        includes_numpad_v: None,
        key_define_type_v: None,
        name_v: None,
        sound_v: None,
        tags_v: None,
    }
}

/// One field value, parsed according to the field it belongs to; a second
/// occurrence of a known field is malformed, and a field the schema does
/// not know is skipped as a balanced token.
pub open spec fn parse_field_value(s: Seq<u8>, i: int, kind: FieldKind, acc: CfgV) -> Option<
    (CfgV, int),
> {
    let j = ws_end(s, i);
    match kind {
        FieldKind::FDefault => if acc.default_v is Some {
            None
        } else {
            match parse_bool(s, j) {
                None => None,
                Some((b, p)) => Some((CfgV { default_v: Some(b), ..acc }, p)),
            }
        },
        FieldKind::FDefines => if acc.defines_v is Some {
            None
        } else {
            match parse_defines(s, j) {
                None => None,
                Some((d, p)) => Some((CfgV { defines_v: Some(d), ..acc }, p)),
            }
        },
        FieldKind::FId => if acc.id_v is Some {
            None
        } else {
            match parse_quoted(s, j) {
                None => None,
                Some((v, p)) => Some((CfgV { id_v: Some(v), ..acc }, p)),
            }
        },
        FieldKind::FIncludesNumpad => if acc.includes_numpad_v is Some {
            None
        } else {
            match parse_bool(s, j) {
                None => None,
                Some((b, p)) => Some((CfgV { includes_numpad_v: Some(b), ..acc }, p)),
            }
        },
        FieldKind::FKeyDefineType => if acc.key_define_type_v is Some {
            None
        } else {
            match parse_quoted(s, j) {
                None => None,
                Some((v, p)) => Some((CfgV { key_define_type_v: Some(v), ..acc }, p)),
            }
        },
        FieldKind::FName => if acc.name_v is Some {
            None
        } else {
            match parse_quoted(s, j) {
                None => None,
                Some((v, p)) => Some((CfgV { name_v: Some(v), ..acc }, p)),
            }
        },
        FieldKind::FSound => if acc.sound_v is Some {
            None
        } else {
            match parse_quoted(s, j) {
                None => None,
                Some((v, p)) => Some((CfgV { sound_v: Some(v), ..acc }, p)),
            }
        },
        FieldKind::FTags => if acc.tags_v is Some {
            None
        } else {
            match parse_tags(s, j) {
                None => None,
                Some((v, p)) => Some((CfgV { tags_v: Some(v), ..acc }, p)),
            }
        },
        FieldKind::FUnknown => match skip_value(s, j) {
            None => None,
            Some(p) => Some((acc, p)),
        },
    }
}

/// A string value in double quotes.
pub open spec fn parse_quoted(s: Seq<u8>, i: int) -> Option<(Seq<u8>, int)> {
    if 0 <= i < s.len() && s[i] == QUOTE {
        parse_str_body(s, i + 1)
    } else {
        None
    }
}

pub fn read_quoted(s: &Vec<u8>, i: usize) -> (r: Option<(Vec<u8>, usize)>)
    requires
        i <= s@.len(),
    ensures
        match r {
            Some(p) => parse_quoted(s@, i as int) == Some((p.0@, p.1 as int)) && i < p.1
                <= s@.len(),
            None => parse_quoted(s@, i as int) is None,
        },
{
    if i < s.len() && s[i] == QUOTE {
        read_str_body(s, i + 1)
    } else {
        None
    }
}

pub proof fn lemma_parse_field_value_bounds(s: Seq<u8>, i: int, kind: FieldKind, acc: CfgV)
    requires
        0 <= i <= s.len(),
    ensures
        parse_field_value(s, i, kind, acc) matches Some(p) ==> i < p.1 <= s.len(),
{
    lemma_ws_end_bounds(s, i);
    let j = ws_end(s, i);
    lemma_parse_defines_bounds(s, j);
    lemma_parse_tags_bounds(s, j);
    if 0 <= j < s.len() && s[j] == QUOTE {
        lemma_str_body_bounds(s, j + 1);
    }
    if 0 <= j < s.len() {
        lemma_skip_structured_bounds(s, j + 1, seq![], true, false);
        lemma_skip_structured_bounds(s, j + 1, seq![RBRACE], false, false);
        lemma_skip_structured_bounds(s, j + 1, seq![RBRACKET], false, false);
        crate::json::lemma_prim_end_bounds(s, j);
    }
}

/// The fields of the top-level object, starting right after the opening
/// brace or after a comma.
pub open spec fn parse_fields(s: Seq<u8>, i: int, acc: CfgV) -> Option<(CfgV, int)>
    decreases s.len() - i,
    when 0 <= i <= s.len()
    via parse_fields_dec
{
    let j = ws_end(s, i);
    if j < s.len() && s[j] == QUOTE {
        match parse_str_body(s, j + 1) {
            None => None,
            Some((kt, p1)) => {
                let p2 = ws_end(s, p1);
                if p2 < s.len() && s[p2] == COLON {
                    match parse_field_value(s, p2 + 1, classify_key(kt), acc) {
                        None => None,
                        Some((acc2, p3)) => {
                            let p4 = ws_end(s, p3);
                            if p4 < s.len() && s[p4] == COMMA {
                                parse_fields(s, p4 + 1, acc2)
                            } else if p4 < s.len() && s[p4] == RBRACE {
                                Some((acc2, p4 + 1))
                            } else {
                                None
                            }
                        },
                    }
                } else {
                    None
                }
            },
        }
    } else {
        None
    }
}

#[via_fn]
proof fn parse_fields_dec(s: Seq<u8>, i: int, acc: CfgV) {
    lemma_ws_end_bounds(s, i);
    let j = ws_end(s, i);
    if j < s.len() && s[j] == QUOTE {
        lemma_str_body_bounds(s, j + 1);
        match parse_str_body(s, j + 1) {
            None => {},
            Some((kt, p1)) => {
                lemma_ws_end_bounds(s, p1);
                let p2 = ws_end(s, p1);
                if p2 < s.len() && s[p2] == COLON {
                    lemma_parse_field_value_bounds(s, p2 + 1, classify_key(kt), acc);
                    match parse_field_value(s, p2 + 1, classify_key(kt), acc) {
                        None => {},
                        Some((acc2, p3)) => {
                            lemma_ws_end_bounds(s, p3);
                        },
                    }
                }
            },
        }
    }
}


/// Field values seen so far, in executable form.
pub struct PartialConfig {
    pub default_p: Option<bool>,
    pub defines_p: Option<Vec<DefineEntry>>,
    pub id_p: Option<Vec<u8>>,
    pub includes_numpad_p: Option<bool>,
    pub key_define_type_p: Option<Vec<u8>>,
    pub name_p: Option<Vec<u8>>,
    pub sound_p: Option<Vec<u8>>,
    pub tags_p: Option<Vec<Vec<u8>>>,
}

impl PartialConfig {
    pub open spec fn view_cfg(&self) -> CfgV {
        CfgV {
            default_v: self.default_p,
            defines_v: match self.defines_p {
                Some(v) => Some(v@),
                None => None,
            },
            id_v: match self.id_p {
                Some(v) => Some(v@),
                None => None,
            },
            includes_numpad_v: self.includes_numpad_p,
            key_define_type_v: match self.key_define_type_p {
                Some(v) => Some(v@),
                None => None,
            },
            name_v: match self.name_p {
                Some(v) => Some(v@),
                None => None,
            },
            sound_v: match self.sound_p {
                Some(v) => Some(v@),
                None => None,
            },
            tags_v: match self.tags_p {
                Some(v) => Some(v.deep_view()),
                None => None,
            },
        }
    }
}

fn read_field_value(s: &Vec<u8>, i: usize, kind: FieldKind, acc: PartialConfig) -> (r: Option<
    (PartialConfig, usize),
>)
    requires
        i <= s@.len(),
    ensures
        match r {
            Some(p) => parse_field_value(s@, i as int, kind, acc.view_cfg()) == Some(
                (p.0.view_cfg(), p.1 as int),
            ) && i < p.1 <= s@.len(),
            None => parse_field_value(s@, i as int, kind, acc.view_cfg()) is None,
        },
{
    let j = skip_ws(s, i);
    match kind {
        FieldKind::FDefault => {
            if acc.default_p.is_some() {
                None
            } else {
                match read_bool(s, j) {
                    None => None,
                    Some((b, p)) => Some((PartialConfig { default_p: Some(b), ..acc }, p)),
                }
            }
        },
        FieldKind::FDefines => {
            if acc.defines_p.is_some() {
                None
            } else {
                match read_defines(s, j) {
                    None => None,
                    Some((d, p)) => Some((PartialConfig { defines_p: Some(d), ..acc }, p)),
                }
            }
        },
        FieldKind::FId => {
            if acc.id_p.is_some() {
                None
            } else {
                match read_quoted(s, j) {
                    None => None,
                    Some((v, p)) => Some((PartialConfig { id_p: Some(v), ..acc }, p)),
                }
            }
        },
        FieldKind::FIncludesNumpad => {
            if acc.includes_numpad_p.is_some() {
                None
            } else {
                match read_bool(s, j) {
                    None => None,
                    Some((b, p)) => Some(
                        (PartialConfig { includes_numpad_p: Some(b), ..acc }, p),
                    ),
                }
            }
        },
        FieldKind::FKeyDefineType => {
            if acc.key_define_type_p.is_some() {
                None
            } else {
                match read_quoted(s, j) {
                    None => None,
                    Some((v, p)) => Some(
                        (PartialConfig { key_define_type_p: Some(v), ..acc }, p),
                    ),
                }
            }
        },
        FieldKind::FName => {
            if acc.name_p.is_some() {
                None
            } else {
                match read_quoted(s, j) {
                    None => None,
                    Some((v, p)) => Some((PartialConfig { name_p: Some(v), ..acc }, p)),
                }
            }
        },
        FieldKind::FSound => {
            if acc.sound_p.is_some() {
                None
            } else {
                match read_quoted(s, j) {
                    None => None,
                    Some((v, p)) => Some((PartialConfig { sound_p: Some(v), ..acc }, p)),
                }
            }
        },
        FieldKind::FTags => {
            if acc.tags_p.is_some() {
                None
            } else {
                match read_tags(s, j) {
                    None => None,
                    Some((v, p)) => Some((PartialConfig { tags_p: Some(v), ..acc }, p)),
                }
            }
        },
        FieldKind::FUnknown => {
            match do_skip_value(s, j) {
                None => None,
                Some(p) => Some((acc, p)),
            }
        },
    }
}

fn read_fields(s: &Vec<u8>, i: usize, acc: PartialConfig) -> (r: Option<(PartialConfig, usize)>)
    requires
        i <= s@.len(),
    ensures
        match r {
            Some(p) => parse_fields(s@, i as int, acc.view_cfg()) == Some(
                (p.0.view_cfg(), p.1 as int),
            ) && i < p.1 <= s@.len(),
            None => parse_fields(s@, i as int, acc.view_cfg()) is None,
        },
    decreases s@.len() - i,
{
    let j = skip_ws(s, i);
    if j < s.len() && s[j] == QUOTE {
        match read_str_body(s, j + 1) {
            None => None,
            Some((kt, p1)) => {
                let p2 = skip_ws(s, p1);
                if p2 < s.len() && s[p2] == COLON {
                    let kind = classify_key_bytes(&kt);
                    match read_field_value(s, p2 + 1, kind, acc) {
                        None => None,
                        Some((acc2, p3)) => {
                            let p4 = skip_ws(s, p3);
                            if p4 < s.len() && s[p4] == COMMA {
                                read_fields(s, p4 + 1, acc2)
                            } else if p4 < s.len() && s[p4] == RBRACE {
                                Some((acc2, p4 + 1))
                            } else {
                                None
                            }
                        },
                    }
                } else {
                    None
                }
            },
        }
    } else {
        None
    }
}

/// Why a configuration body was rejected.
#[derive(Clone, Copy, PartialEq, Eq, Structural, Debug)]
pub enum ConfigError {
    /// Not well formed for this schema: bad syntax, a wrongly typed field,
    /// or a known field given twice.
    Malformed,
    MissingDefault,
    MissingDefines,
    MissingId,
    MissingIncludesNumpad,
    MissingKeyDefineType,
    MissingName,
    MissingSound,
    MissingTags,
    /// The `sound` field is present but empty: not a valid file name for
    /// the shared audio asset.
    EmptySound,
}

/// A parsed pack configuration, in mathematical form.
pub ghost struct PackConfigV {
    pub default: bool,
    pub defines: Seq<DefineEntry>,
    pub id: Seq<u8>,
    pub includes_numpad: bool,
    pub key_define_type: Seq<u8>,
    pub name: Seq<u8>,
    pub sound: Seq<u8>,
    pub tags: Seq<Seq<u8>>,
}

/// A parsed pack configuration: the timing map `defines`, the shared audio
/// asset file name `sound`, and the descriptive fields passed through
/// unmodified.
#[derive(Debug)]
pub struct PackConfig {
    pub default: bool,
    pub defines: Vec<DefineEntry>,
    pub id: Vec<u8>,
    pub includes_numpad: bool,
    pub key_define_type: Vec<u8>,
    pub name: Vec<u8>,
    pub sound: Vec<u8>,
    pub tags: Vec<Vec<u8>>,
}

impl View for PackConfig {
    type V = PackConfigV;

    open spec fn view(&self) -> PackConfigV {
        PackConfigV {
            default: self.default,
            defines: self.defines@,
            id: self.id@,
            includes_numpad: self.includes_numpad,
            key_define_type: self.key_define_type@,
            name: self.name@,
            sound: self.sound@,
            tags: self.tags.deep_view(),
        }
    }
}

/// All required fields present, reported in schema order otherwise.
pub open spec fn complete_cfg(c: CfgV) -> Result<PackConfigV, ConfigError> {
    if c.default_v is None {
        Err(ConfigError::MissingDefault)
    } else if c.defines_v is None {
        Err(ConfigError::MissingDefines)
    } else if c.id_v is None {
        Err(ConfigError::MissingId)
    } else if c.includes_numpad_v is None {
        Err(ConfigError::MissingIncludesNumpad)
    } else if c.key_define_type_v is None {
        Err(ConfigError::MissingKeyDefineType)
    } else if c.name_v is None {
        Err(ConfigError::MissingName)
    } else if c.sound_v is None {
        Err(ConfigError::MissingSound)
    } else if c.tags_v is None {
        Err(ConfigError::MissingTags)
    } else if c.sound_v.unwrap().len() == 0 {
        Err(ConfigError::EmptySound)
    } else {
        Ok(
            PackConfigV {
                default: c.default_v.unwrap(),
                defines: c.defines_v.unwrap(),
                id: c.id_v.unwrap(),
                includes_numpad: c.includes_numpad_v.unwrap(),
                key_define_type: c.key_define_type_v.unwrap(),
                name: c.name_v.unwrap(),
                sound: c.sound_v.unwrap(),
                tags: c.tags_v.unwrap(),
            },
        )
    }
}

/// What a whole configuration body denotes: the top-level object with all
/// eight schema fields, with nothing but whitespace after it.
pub open spec fn spec_parse_config(s: Seq<u8>) -> Result<PackConfigV, ConfigError> {
    let j = ws_end(s, 0);
    if !(j < s.len() && s[j] == LBRACE) {
        Err(ConfigError::Malformed)
    } else {
        let k = ws_end(s, j + 1);
        let fr = if k < s.len() && s[k] == RBRACE {
            Some((empty_cfg(), k + 1))
        } else {
            parse_fields(s, j + 1, empty_cfg())
        };
        match fr {
            None => Err(ConfigError::Malformed),
            Some((c, m)) => if ws_end(s, m) == s.len() {
                complete_cfg(c)
            } else {
                Err(ConfigError::Malformed)
            },
        }
    }
}

/// A `defines` map threaded through the field parser keeps its keys unique.
proof fn lemma_parse_fields_defines_unique(s: Seq<u8>, i: int, acc: CfgV)
    requires
        0 <= i <= s.len(),
        acc.defines_v matches Some(d) ==> keys_unique(d),
    ensures
        parse_fields(s, i, acc) matches Some(p) ==> (p.0.defines_v matches Some(d)
            ==> keys_unique(d)),
    decreases s.len() - i,
{
    lemma_ws_end_bounds(s, i);
    let j = ws_end(s, i);
    if j < s.len() && s[j] == QUOTE {
        lemma_str_body_bounds(s, j + 1);
        match parse_str_body(s, j + 1) {
            None => {},
            Some((kt, p1)) => {
                lemma_ws_end_bounds(s, p1);
                let p2 = ws_end(s, p1);
                if p2 < s.len() && s[p2] == COLON {
                    lemma_parse_field_value_bounds(s, p2 + 1, classify_key(kt), acc);
                    lemma_ws_end_bounds(s, p2 + 1);
                    lemma_parse_defines_bounds(s, ws_end(s, p2 + 1));
                    match parse_field_value(s, p2 + 1, classify_key(kt), acc) {
                        None => {},
                        Some((acc2, p3)) => {
                            lemma_ws_end_bounds(s, p3);
                            let p4 = ws_end(s, p3);
                            assert(acc2.defines_v matches Some(d) ==> keys_unique(d));
                            if p4 < s.len() && s[p4] == COMMA {
                                lemma_parse_fields_defines_unique(s, p4 + 1, acc2);
                            }
                        },
                    }
                }
            },
        }
    }
}

/// An accepted configuration's `defines` map has pairwise distinct keys.
pub proof fn lemma_parsed_defines_unique(s: Seq<u8>)
    ensures
        spec_parse_config(s) matches Ok(c) ==> keys_unique(c.defines),
{
    lemma_ws_end_bounds(s, 0);
    let j = ws_end(s, 0);
    if j < s.len() && s[j] == LBRACE {
        lemma_parse_fields_defines_unique(s, j + 1, empty_cfg());
    }
}

impl PackConfig {
    /// Parse a configuration body.  The result is exactly what the body
    /// denotes under `spec_parse_config`, and an accepted configuration has
    /// pairwise distinct key codes in `defines`.
    pub fn parse(s: &Vec<u8>) -> (r: Result<PackConfig, ConfigError>)
        ensures
            match r {
                Ok(c) => spec_parse_config(s@) == Ok::<PackConfigV, ConfigError>(c@),
                Err(e) => spec_parse_config(s@) == Err::<PackConfigV, ConfigError>(e),
            },
            r matches Ok(c) ==> keys_unique(c@.defines),
    {
        let j = skip_ws(s, 0);
        if !(j < s.len() && s[j] == LBRACE) {
            return Err(ConfigError::Malformed);
        }
        proof {
            lemma_parse_fields_defines_unique(s@, j + 1, empty_cfg());
        }
        let k = skip_ws(s, j + 1);
        let empty_acc = PartialConfig {
            default_p: None,
            defines_p: None,
            id_p: None,
            includes_numpad_p: None,
            key_define_type_p: None,
            name_p: None,
            sound_p: None,
            tags_p: None,
        };
        assert(empty_acc.view_cfg() == empty_cfg());
        let fr: Option<(PartialConfig, usize)> = if k < s.len() && s[k] == RBRACE {
            Some((empty_acc, k + 1))
        } else {
            read_fields(s, j + 1, empty_acc)
        };
        match fr {
            None => Err(ConfigError::Malformed),
            Some((c, m)) => {
                let e = skip_ws(s, m);
                if e != s.len() {
                    return Err(ConfigError::Malformed);
                }
                if c.default_p.is_none() {
                    return Err(ConfigError::MissingDefault);
                }
                if c.defines_p.is_none() {
                    return Err(ConfigError::MissingDefines);
                }
                if c.id_p.is_none() {
                    return Err(ConfigError::MissingId);
                }
                if c.includes_numpad_p.is_none() {
                    return Err(ConfigError::MissingIncludesNumpad);
                }
                if c.key_define_type_p.is_none() {
                    return Err(ConfigError::MissingKeyDefineType);
                }
                if c.name_p.is_none() {
                    return Err(ConfigError::MissingName);
                }
                if c.sound_p.is_none() {
                    return Err(ConfigError::MissingSound);
                }
                if c.tags_p.is_none() {
                    return Err(ConfigError::MissingTags);
                }
                if c.sound_p.as_ref().unwrap().len() == 0 {
                    return Err(ConfigError::EmptySound);
                }
                let cfg = PackConfig {
                    default: c.default_p.unwrap(),
                    defines: c.defines_p.unwrap(),
                    id: c.id_p.unwrap(),
                    includes_numpad: c.includes_numpad_p.unwrap(),
                    key_define_type: c.key_define_type_p.unwrap(),
                    name: c.name_p.unwrap(),
                    sound: c.sound_p.unwrap(),
                    tags: c.tags_p.unwrap(),
                };
                Ok(cfg)
            },
        }
    }
}


/// The text `SoundPackConfig { default: ` as bytes.
pub open spec fn lab_head() -> Seq<u8> {
    seq![83u8, 111u8, 117u8, 110u8, 100u8, 80u8, 97u8, 99u8, 107u8, 67u8, 111u8, 110u8, 102u8, 105u8, 103u8, 32u8, 123u8, 32u8, 100u8, 101u8, 102u8, 97u8, 117u8, 108u8, 116u8, 58u8, 32u8]
}

fn lab_head_bytes() -> (v: Vec<u8>)
    ensures
        v@ == lab_head(),
{
    let mut v: Vec<u8> = Vec::new();
    v.push(83);
    v.push(111);
    v.push(117);
    v.push(110);
    v.push(100);
    v.push(80);
    v.push(97);
    v.push(99);
    v.push(107);
    v.push(67);
    v.push(111);
    v.push(110);
    v.push(102);
    v.push(105);
    v.push(103);
    v.push(32);
    v.push(123);
    v.push(32);
    v.push(100);
    v.push(101);
    v.push(102);
    v.push(97);
    v.push(117);
    v.push(108);
    v.push(116);
    v.push(58);
    v.push(32);
    assert(v@ =~= lab_head());
    v
}

/// The text `, id: ` as bytes.
pub open spec fn lab_id() -> Seq<u8> {
    seq![44u8, 32u8, 105u8, 100u8, 58u8, 32u8]
}

fn lab_id_bytes() -> (v: Vec<u8>)
    ensures
        v@ == lab_id(),
{
    let mut v: Vec<u8> = Vec::new();
    v.push(44);
    v.push(32);
    v.push(105);
    v.push(100);
    v.push(58);
    v.push(32);
    assert(v@ =~= lab_id());
    v
}

/// The text `, includes_numpad: ` as bytes.
pub open spec fn lab_numpad() -> Seq<u8> {
    seq![44u8, 32u8, 105u8, 110u8, 99u8, 108u8, 117u8, 100u8, 101u8, 115u8, 95u8, 110u8, 117u8, 109u8, 112u8, 97u8, 100u8, 58u8, 32u8]
}

fn lab_numpad_bytes() -> (v: Vec<u8>)
    ensures
        v@ == lab_numpad(),
{
    let mut v: Vec<u8> = Vec::new();
    v.push(44);
    v.push(32);
    v.push(105);
    v.push(110);
    v.push(99);
    v.push(108);
    v.push(117);
    v.push(100);
    v.push(101);
    v.push(115);
    v.push(95);
    v.push(110);
    v.push(117);
    v.push(109);
    v.push(112);
    v.push(97);
    v.push(100);
    v.push(58);
    v.push(32);
    assert(v@ =~= lab_numpad());
    v
}

/// The text `, key_define_type: ` as bytes.
pub open spec fn lab_kdt() -> Seq<u8> {
    seq![44u8, 32u8, 107u8, 101u8, 121u8, 95u8, 100u8, 101u8, 102u8, 105u8, 110u8, 101u8, 95u8, 116u8, 121u8, 112u8, 101u8, 58u8, 32u8]
}

fn lab_kdt_bytes() -> (v: Vec<u8>)
    ensures
        v@ == lab_kdt(),
{
    let mut v: Vec<u8> = Vec::new();
    v.push(44);
    v.push(32);
    v.push(107);
    v.push(101);
    v.push(121);
    v.push(95);
    v.push(100);
    v.push(101);
    v.push(102);
    v.push(105);
    v.push(110);
    v.push(101);
    v.push(95);
    v.push(116);
    v.push(121);
    v.push(112);
    v.push(101);
    v.push(58);
    v.push(32);
    assert(v@ =~= lab_kdt());
    v
}

/// The text `, name: ` as bytes.
pub open spec fn lab_name() -> Seq<u8> {
    seq![44u8, 32u8, 110u8, 97u8, 109u8, 101u8, 58u8, 32u8]
}

fn lab_name_bytes() -> (v: Vec<u8>)
    ensures
        v@ == lab_name(),
{
    let mut v: Vec<u8> = Vec::new();
    v.push(44);
    v.push(32);
    v.push(110);
    v.push(97);
    v.push(109);
    v.push(101);
    v.push(58);
    v.push(32);
    assert(v@ =~= lab_name());
    v
}

/// The text `, sound: ` as bytes.
pub open spec fn lab_sound() -> Seq<u8> {
    seq![44u8, 32u8, 115u8, 111u8, 117u8, 110u8, 100u8, 58u8, 32u8]
}

fn lab_sound_bytes() -> (v: Vec<u8>)
    ensures
        v@ == lab_sound(),
{
    let mut v: Vec<u8> = Vec::new();
    v.push(44);
    v.push(32);
    v.push(115);
    v.push(111);
    v.push(117);
    v.push(110);
    v.push(100);
    v.push(58);
    v.push(32);
    assert(v@ =~= lab_sound());
    v
}

/// The text `, tags: ` as bytes.
pub open spec fn lab_tags() -> Seq<u8> {
    seq![44u8, 32u8, 116u8, 97u8, 103u8, 115u8, 58u8, 32u8]
}

fn lab_tags_bytes() -> (v: Vec<u8>)
    ensures
        v@ == lab_tags(),
{
    let mut v: Vec<u8> = Vec::new();
    v.push(44);
    v.push(32);
    v.push(116);
    v.push(97);
    v.push(103);
    v.push(115);
    v.push(58);
    v.push(32);
    assert(v@ =~= lab_tags());
    v
}

/// The text `, .. }` as bytes.
pub open spec fn lab_tail() -> Seq<u8> {
    seq![44u8, 32u8, 46u8, 46u8, 32u8, 125u8]
}

fn lab_tail_bytes() -> (v: Vec<u8>)
    ensures
        v@ == lab_tail(),
{
    let mut v: Vec<u8> = Vec::new();
    v.push(44);
    v.push(32);
    v.push(46);
    v.push(46);
    v.push(32);
    v.push(125);
    assert(v@ =~= lab_tail());
    v
}

/// The text `true` as bytes.
pub open spec fn lab_true() -> Seq<u8> {
    seq![116u8, 114u8, 117u8, 101u8]
}

fn lab_true_bytes() -> (v: Vec<u8>)
    ensures
        v@ == lab_true(),
{
    let mut v: Vec<u8> = Vec::new();
    v.push(116);
    v.push(114);
    v.push(117);
    v.push(101);
    assert(v@ =~= lab_true());
    v
}

/// The text `false` as bytes.
pub open spec fn lab_false() -> Seq<u8> {
    seq![102u8, 97u8, 108u8, 115u8, 101u8]
}

fn lab_false_bytes() -> (v: Vec<u8>)
    ensures
        v@ == lab_false(),
{
    let mut v: Vec<u8> = Vec::new();
    v.push(102);
    v.push(97);
    v.push(108);
    v.push(115);
    v.push(101);
    assert(v@ =~= lab_false());
    v
}

/// The text `, ` as bytes.
pub open spec fn lab_sep() -> Seq<u8> {
    seq![44u8, 32u8]
}

fn lab_sep_bytes() -> (v: Vec<u8>)
    ensures
        v@ == lab_sep(),
{
    let mut v: Vec<u8> = Vec::new();
    v.push(44);
    v.push(32);
    assert(v@ =~= lab_sep());
    v
}

pub open spec fn bool_text(b: bool) -> Seq<u8> {
    if b {
        lab_true()
    } else {
        lab_false()
    }
}

pub open spec fn quoted_text(t: Seq<u8>) -> Seq<u8> {
    seq![QUOTE] + t + seq![QUOTE]
}

pub open spec fn tags_items_text(ts: Seq<Seq<u8>>) -> Seq<u8>
    decreases ts.len(),
{
    if ts.len() == 0 {
        seq![]
    } else if ts.len() == 1 {
        quoted_text(ts[0])
    } else {
        quoted_text(ts[0]) + lab_sep() + tags_items_text(ts.drop_first())
    }
}

pub open spec fn tags_text(ts: Seq<Seq<u8>>) -> Seq<u8> {
    seq![LBRACKET] + tags_items_text(ts) + seq![RBRACKET]
}

/// The one-line rendering of a configuration: every field but the timing
/// map, which is elided behind `..` since it can hold hundreds of entries.
pub open spec fn debug_text_spec(c: PackConfigV) -> Seq<u8> {
    lab_head() + bool_text(c.default) + lab_id() + quoted_text(c.id) + lab_numpad() + bool_text(
        c.includes_numpad,
    ) + lab_kdt() + quoted_text(c.key_define_type) + lab_name() + quoted_text(c.name)
        + lab_sound() + quoted_text(c.sound) + lab_tags() + tags_text(c.tags) + lab_tail()
}

fn push_bool(b: bool, out: &mut Vec<u8>)
    ensures
        final(out)@ == old(out)@ + bool_text(b),
{
    if b {
        let w = lab_true_bytes();
        crate::text::append_bytes(out, &w);
    } else {
        let w = lab_false_bytes();
        crate::text::append_bytes(out, &w);
    }
}

fn push_quoted(t: &Vec<u8>, out: &mut Vec<u8>)
    ensures
        final(out)@ == old(out)@ + quoted_text(t@),
{
    out.push(QUOTE);
    crate::text::append_bytes(out, t);
    out.push(QUOTE);
    assert(out@ =~= old(out)@ + quoted_text(t@));
}

fn push_tag_items(ts: &Vec<Vec<u8>>, from: usize, out: &mut Vec<u8>)
    requires
        from <= ts@.len(),
    ensures
        final(out)@ == old(out)@ + tags_items_text(ts.deep_view().skip(from as int)),
    decreases ts@.len() - from,
{
    if from < ts.len() {
        push_quoted(&ts[from], out);
        assert(ts.deep_view().skip(from as int)[0] == ts.deep_view()[from as int]);
        if from + 1 < ts.len() {
            let sep = lab_sep_bytes();
            crate::text::append_bytes(out, &sep);
            push_tag_items(ts, from + 1, out);
            assert(ts.deep_view().skip(from as int).drop_first() =~= ts.deep_view().skip(
                from as int + 1,
            ));
            assert(out@ =~= old(out)@ + tags_items_text(ts.deep_view().skip(from as int)));
        } else {
            assert(ts.deep_view().skip(from as int).len() == 1);
            assert(out@ =~= old(out)@ + tags_items_text(ts.deep_view().skip(from as int)));
        }
    } else {
        assert(ts.deep_view().skip(from as int).len() == 0);
        assert(out@ =~= old(out)@ + tags_items_text(ts.deep_view().skip(from as int)));
    }
}

impl PackConfig {
    /// Render the configuration as one line of text, the timing map elided.
    pub fn debug_text(&self) -> (r: Vec<u8>)
        ensures
            r@ == debug_text_spec(self@),
    {
        let mut out: Vec<u8> = Vec::new();
        let h = lab_head_bytes();
        crate::text::append_bytes(&mut out, &h);
        push_bool(self.default, &mut out);
        let l1 = lab_id_bytes();
        crate::text::append_bytes(&mut out, &l1);
        push_quoted(&self.id, &mut out);
        let l2 = lab_numpad_bytes();
        crate::text::append_bytes(&mut out, &l2);
        push_bool(self.includes_numpad, &mut out);
        let l3 = lab_kdt_bytes();
        crate::text::append_bytes(&mut out, &l3);
        push_quoted(&self.key_define_type, &mut out);
        let l4 = lab_name_bytes();
        crate::text::append_bytes(&mut out, &l4);
        push_quoted(&self.name, &mut out);
        let l5 = lab_sound_bytes();
        crate::text::append_bytes(&mut out, &l5);
        push_quoted(&self.sound, &mut out);
        let l6 = lab_tags_bytes();
        crate::text::append_bytes(&mut out, &l6);
        out.push(LBRACKET);
        push_tag_items(&self.tags, 0, &mut out);
        out.push(RBRACKET);
        let l7 = lab_tail_bytes();
        crate::text::append_bytes(&mut out, &l7);
        proof {
            assert(self.tags.deep_view().skip(0) =~~= self.tags.deep_view());
        }
        assert(out@ =~= debug_text_spec(self@));
        out
    }
}

} // verus!
