//! Serialization of a `defines` map back to its JSON object form, and the
//! round-trip law: serializing a map and parsing the result yields the map
//! unchanged, key set and timing pairs intact.

use vstd::prelude::*;
use crate::text::{
    dec_digits, dec_value, all_digits, is_digit, u64_to_dec, append_bytes, lemma_dec_round_trip,
    lemma_dec_digits_are_digits, lemma_dec_digits_no_leading_zero,
};
use crate::json::{
    QUOTE, COLON, COMMA, LBRACE, RBRACE, LBRACKET, RBRACKET, ws_end, digits_end, parse_str_body,
    parse_json_u64, parse_pair, is_ws,
};
use crate::config::{
    DefineEntry, keys_unique, has_key, upsert, parse_defines, parse_defines_entries,
    lemma_upsert_append,
};

verus! {

/// `[start, duration]`.
pub open spec fn ser_pair(p: (u64, u64)) -> Seq<u8> {
    seq![LBRACKET] + dec_digits(p.0 as nat) + seq![COMMA] + dec_digits(p.1 as nat)
        + seq![RBRACKET]
}

/// `"key": [start, duration]` without any whitespace.
pub open spec fn ser_entry(e: DefineEntry) -> Seq<u8> {
    seq![QUOTE] + dec_digits(e.0 as nat) + seq![QUOTE, COLON] + ser_pair(e.1)
}

/// The entries joined with commas, in sequence order.
pub open spec fn ser_entries(es: Seq<DefineEntry>) -> Seq<u8>
    decreases es.len(),
{
    if es.len() == 0 {
        seq![]
    } else if es.len() == 1 {
        ser_entry(es[0])
    } else {
        ser_entry(es[0]) + seq![COMMA] + ser_entries(es.drop_first())
    }
}

/// The whole `defines` object.
pub open spec fn ser_defines(es: Seq<DefineEntry>) -> Seq<u8> {
    seq![LBRACE] + ser_entries(es) + seq![RBRACE]
}

fn write_pair(p: (u64, u64), out: &mut Vec<u8>)
    ensures
        final(out)@ == old(out)@ + ser_pair(p),
{
    out.push(LBRACKET);
    let a = u64_to_dec(p.0);
    append_bytes(out, &a);
    out.push(COMMA);
    let b = u64_to_dec(p.1);
    append_bytes(out, &b);
    out.push(RBRACKET);
    assert(out@ =~= old(out)@ + ser_pair(p));
}

fn write_entry(e: DefineEntry, out: &mut Vec<u8>)
    ensures
        final(out)@ == old(out)@ + ser_entry(e),
{
    out.push(QUOTE);
    let k = u64_to_dec(e.0);
    append_bytes(out, &k);
    out.push(QUOTE);
    out.push(COLON);
    write_pair(e.1, out);
    assert(out@ =~= old(out)@ + ser_entry(e));
}

fn write_entries(es: &Vec<DefineEntry>, from: usize, out: &mut Vec<u8>)
    requires
        from <= es@.len(),
    ensures
        final(out)@ == old(out)@ + ser_entries(es@.skip(from as int)),
    decreases es@.len() - from,
{
    if from < es.len() {
        write_entry(es[from], out);
        assert(es@.skip(from as int)[0] == es@[from as int]);
        if from + 1 < es.len() {
            out.push(COMMA);
            write_entries(es, from + 1, out);
            assert(es@.skip(from as int).drop_first() =~= es@.skip(from as int + 1));
            assert(out@ =~= old(out)@ + ser_entries(es@.skip(from as int)));
        } else {
            assert(es@.skip(from as int).len() == 1);
            assert(out@ =~= old(out)@ + ser_entries(es@.skip(from as int)));
        }
    } else {
        assert(es@.skip(from as int).len() == 0);
        assert(out@ =~= old(out)@ + ser_entries(es@.skip(from as int)));
    }
}

/// Render a `defines` map as its JSON object text.
pub fn serialize_defines(es: &Vec<DefineEntry>) -> (r: Vec<u8>)
    ensures
        r@ == ser_defines(es@),
{
    let mut out: Vec<u8> = Vec::new();
    out.push(LBRACE);
    write_entries(es, 0, &mut out);
    out.push(RBRACE);
    assert(es@.skip(0) =~= es@);
    assert(out@ =~= ser_defines(es@));
    out
}


proof fn lemma_digits_end_exact(s: Seq<u8>, i: int, j: int)
    requires
        0 <= i <= j <= s.len(),
        forall|q: int| i <= q < j ==> is_digit(s[q]),
        j == s.len() || !is_digit(s[j]),
    ensures
        digits_end(s, i) == j,
    decreases j - i,
{
    if i < j {
        lemma_digits_end_exact(s, i + 1, j);
    }
}

proof fn lemma_str_body_digits(s: Seq<u8>, i: int, j: int)
    requires
        0 <= i <= j < s.len(),
        forall|q: int| i <= q < j ==> is_digit(s[q]),
        s[j] == QUOTE,
    ensures
        parse_str_body(s, i) == Some((s.subrange(i, j), j + 1)),
    decreases j - i,
{
    if i == j {
        assert(s.subrange(i, j) =~= Seq::<u8>::empty());
    } else {
        assert(is_digit(s[i]));
        lemma_str_body_digits(s, i + 1, j);
        assert(seq![s[i]] + s.subrange(i + 1, j) =~= s.subrange(i, j));
    }
}

proof fn lemma_parse_u64_at(s: Seq<u8>, i: int, n: u64)
    requires
        0 <= i,
        i + dec_digits(n as nat).len() < s.len(),
        s.subrange(i, i + dec_digits(n as nat).len() as int) == dec_digits(n as nat),
        s[i + dec_digits(n as nat).len() as int] == COMMA || s[i + dec_digits(
            n as nat,
        ).len() as int] == RBRACKET,
    ensures
        parse_json_u64(s, i) == Some((n, i + dec_digits(n as nat).len() as int)),
{
    let d = dec_digits(n as nat);
    let j = i + d.len() as int;
    lemma_dec_digits_are_digits(n as nat);
    assert forall|q: int| i <= q < j implies is_digit(s[q]) by {
        assert(s.subrange(i, j)[q - i] == s[q]);
        assert(crate::text::all_digits(d));
        assert(is_digit(d[q - i]));
    }
    assert(!is_digit(s[j]));
    lemma_digits_end_exact(s, i, j);
    lemma_dec_digits_no_leading_zero(n as nat);
    assert(s[i] == d[0]) by {
        assert(s.subrange(i, j)[0] == s[i]);
    }
    lemma_dec_round_trip(n as nat);
    assert(dec_value(s.subrange(i, j)) == n);
}

proof fn lemma_parse_pair_at(s: Seq<u8>, i: int, p: (u64, u64))
    requires
        0 <= i,
        i + ser_pair(p).len() <= s.len(),
        s.subrange(i, i + ser_pair(p).len() as int) == ser_pair(p),
    ensures
        parse_pair(s, i) == Some((p, i + ser_pair(p).len() as int)),
{
    let sp = ser_pair(p);
    let a = dec_digits(p.0 as nat);
    let b = dec_digits(p.1 as nat);
    let la = a.len() as int;
    let lb = b.len() as int;
    assert(sp.len() == la + lb + 3);
    assert forall|q: int| 0 <= q < sp.len() implies s[i + q] == sp[q] by {
        assert(s.subrange(i, i + sp.len() as int)[q] == s[i + q]);
    }
    assert(s[i] == LBRACKET) by {
        assert(s[i + 0] == sp[0]);
    }
    assert(!is_ws(LBRACKET));
    assert(ws_end(s, i) == i);
    assert forall|q: int| 0 <= q < la implies s[i + 1 + q] == a[q] by {
        assert(sp[1 + q] == a[q]);
    }
    assert(s.subrange(i + 1, i + 1 + la) =~= a);
    assert(s[i + 1 + la] == COMMA) by {
        assert(sp[1 + la] == COMMA);
    }
    assert(!is_ws(s[i + 1])) by {
        lemma_dec_digits_are_digits(p.0 as nat);
        assert(is_digit(a[0]));
    }
    assert(ws_end(s, i + 1) == i + 1);
    lemma_parse_u64_at(s, i + 1, p.0);
    let p1 = i + 1 + la;
    assert(ws_end(s, p1) == p1);
    assert forall|q: int| 0 <= q < lb implies s[p1 + 1 + q] == b[q] by {
        assert(sp[2 + la + q] == b[q]);
    }
    assert(s.subrange(p1 + 1, p1 + 1 + lb) =~= b);
    assert(s[p1 + 1 + lb] == RBRACKET) by {
        assert(sp[2 + la + lb] == RBRACKET);
    }
    assert(!is_ws(s[p1 + 1])) by {
        lemma_dec_digits_are_digits(p.1 as nat);
        assert(is_digit(b[0]));
    }
    assert(ws_end(s, p1 + 1) == p1 + 1);
    lemma_parse_u64_at(s, p1 + 1, p.1);
    let p3 = p1 + 1 + lb;
    assert(ws_end(s, p3) == p3);
    assert(s[p3] == RBRACKET);
    assert(p == (p.0, p.1));
    assert(p3 + 1 == i + sp.len());
}

proof fn lemma_entries_round_trip(s: Seq<u8>, i: int, es: Seq<DefineEntry>, acc: Seq<
    DefineEntry,
>)
    requires
        0 <= i,
        es.len() >= 1,
        i + ser_entries(es).len() + 1 == s.len(),
        s.subrange(i, i + ser_entries(es).len() as int) == ser_entries(es),
        s[s.len() - 1] == RBRACE,
        keys_unique(acc),
        keys_unique(es),
        forall|x: int| 0 <= x < es.len() ==> !has_key(acc, (#[trigger] es[x]).0),
    ensures
        parse_defines_entries(s, i, acc) == Some((acc + es, s.len() as int)),
    decreases es.len(),
{
    let e0 = es[0];
    let se = ser_entry(e0);
    let ents = ser_entries(es);
    let kd = dec_digits(e0.0 as nat);
    let lk = kd.len() as int;
    let sp = ser_pair(e0.1);
    assert(se.len() == lk + 3 + sp.len());
    if es.len() == 1 {
        assert(ents == se);
    } else {
        assert(ents == se + seq![COMMA] + ser_entries(es.drop_first()));
    }
    assert forall|q: int| 0 <= q < ents.len() implies s[i + q] == ents[q] by {
        assert(s.subrange(i, i + ents.len() as int)[q] == s[i + q]);
    }
    assert forall|q: int| 0 <= q < se.len() implies s[i + q] == se[q] by {
        assert(ents[q] == se[q]);
    }
    assert(s[i] == QUOTE) by {
        assert(s[i + 0] == se[0]);
    }
    assert(!is_ws(QUOTE));
    assert(ws_end(s, i) == i);
    assert forall|q: int| 0 <= q < lk implies s[i + 1 + q] == kd[q] by {
        assert(se[1 + q] == kd[q]);
    }
    lemma_dec_digits_are_digits(e0.0 as nat);
    assert(s[i + 1 + lk] == QUOTE) by {
        assert(se[1 + lk] == QUOTE);
    }
    assert forall|q: int| i + 1 <= q < i + 1 + lk implies is_digit(s[q]) by {
        assert(s[q] == kd[q - i - 1]);
        assert(is_digit(kd[q - i - 1]));
    }
    lemma_str_body_digits(s, i + 1, i + 1 + lk);
    assert(s.subrange(i + 1, i + 1 + lk) =~= kd);
    lemma_dec_round_trip(e0.0 as nat);
    assert(crate::config::key_value(kd) == Some(e0.0)) by {
        assert(kd.len() >= 1);
        assert(all_digits(kd));
        assert(dec_value(kd) == e0.0);
    }
    let p1 = i + lk + 2;
    assert(s[p1] == COLON) by {
        assert(se[lk + 2] == COLON);
    }
    assert(!is_ws(COLON));
    assert(ws_end(s, p1) == p1);
    assert forall|q: int| 0 <= q < sp.len() implies s[p1 + 1 + q] == sp[q] by {
        assert(se[lk + 3 + q] == sp[q]);
    }
    assert(s.subrange(p1 + 1, p1 + 1 + sp.len() as int) =~= sp);
    lemma_parse_pair_at(s, p1 + 1, e0.1);
    let p3 = p1 + 1 + sp.len() as int;
    assert(p3 == i + se.len());
    assert(!has_key(acc, e0.0)) by {
        assert(!has_key(acc, es[0].0));
    }
    lemma_upsert_append(acc, e0.0, e0.1);
    assert(upsert(acc, e0.0, e0.1) == acc.push((e0.0, e0.1)));
    assert((e0.0, e0.1) == e0);
    let acc2 = acc.push(e0);
    if es.len() == 1 {
        assert(p3 == s.len() - 1);
        assert(s[p3] == RBRACE);
        assert(!is_ws(RBRACE));
        assert(ws_end(s, p3) == p3);
        assert(parse_defines_entries(s, i, acc) == Some((acc2, p3 + 1)));
        assert(acc2 =~= acc + es);
    } else {
        let es2 = es.drop_first();
        let rest = ser_entries(es2);
        assert(ents.len() == se.len() + 1 + rest.len());
        assert(s[p3] == COMMA) by {
            assert(ents[se.len() as int] == COMMA);
        }
        assert(!is_ws(COMMA));
        assert(ws_end(s, p3) == p3);
        let i2 = p3 + 1;
        assert forall|q: int| 0 <= q < rest.len() implies s[i2 + q] == rest[q] by {
            assert(ents[se.len() + 1 + q] == rest[q]);
        }
        assert(s.subrange(i2, i2 + rest.len() as int) =~= rest);
        assert(keys_unique(acc2)) by {
            assert forall|x: int, y: int| 0 <= x < y < acc2.len() implies acc2[x].0
                != acc2[y].0 by {
                if y < acc2.len() - 1 {
                    assert(acc[x].0 != acc[y].0);
                } else {
                    assert(acc2[y] == e0);
                    assert(!has_key(acc, e0.0));
                    if acc2[x].0 == e0.0 {
                        assert(acc[x].0 == e0.0);
                        assert(has_key(acc, e0.0));
                    }
                }
            }
        }
        assert(keys_unique(es2)) by {
            assert forall|x: int, y: int| 0 <= x < y < es2.len() implies es2[x].0 != es2[y].0 by {
                assert(es[x + 1].0 != es[y + 1].0);
            }
        }
        assert forall|x: int| 0 <= x < es2.len() implies !has_key(acc2, (#[trigger] es2[x]).0) by {
            assert(es2[x] == es[x + 1]);
            assert(!has_key(acc, es[x + 1].0));
            if has_key(acc2, es2[x].0) {
                let w = choose|w: int| 0 <= w < acc2.len() && acc2[w].0 == es2[x].0;
                if w < acc2.len() - 1 {
                    assert(acc[w].0 == es2[x].0);
                    assert(has_key(acc, es[x + 1].0));
                } else {
                    assert(e0.0 == es[x + 1].0);
                    assert(es[0].0 != es[x + 1].0);
                }
            }
        }
        lemma_entries_round_trip(s, i2, es2, acc2);
        assert(parse_defines_entries(s, i, acc) == Some((acc2 + es2, s.len() as int)));
        assert(acc2 + es2 =~= acc + es);
    }
}

/// Round trip: serializing a `defines` map with pairwise distinct keys and
/// parsing the text back yields exactly the same entries, so the key set
/// and every `(start, duration)` pair survive unchanged.
pub proof fn lemma_defines_round_trip(es: Seq<DefineEntry>)
    requires
        keys_unique(es),
    ensures
        parse_defines(ser_defines(es), 0) == Some((es, ser_defines(es).len() as int)),
{
    let s = ser_defines(es);
    assert(s[0] == LBRACE);
    assert(!is_ws(LBRACE));
    assert(ws_end(s, 0) == 0);
    if es.len() == 0 {
        assert(s =~= seq![LBRACE, RBRACE]);
        assert(s[1] == RBRACE);
        assert(!is_ws(RBRACE));
        assert(ws_end(s, 1) == 1);
        assert(parse_defines(s, 0) == Some((Seq::<DefineEntry>::empty(), 2int)));
        assert(es =~= Seq::<DefineEntry>::empty());
    } else {
        let ents = ser_entries(es);
        assert(ents[0] == QUOTE) by {
            if es.len() == 1 {
                assert(ents == ser_entry(es[0]));
            } else {
                assert(ents == ser_entry(es[0]) + seq![COMMA] + ser_entries(es.drop_first()));
            }
        }
        assert(s[1] == QUOTE) by {
            assert(s == seq![LBRACE] + ents + seq![RBRACE]);
        }
        assert(!is_ws(QUOTE));
        assert(ws_end(s, 1) == 1);
        assert(s[s.len() - 1] == RBRACE);
        assert(s.subrange(1, 1 + ents.len() as int) =~= ents);
        assert(QUOTE != RBRACE);
        lemma_entries_round_trip(s, 1, es, seq![]);
        assert(Seq::<DefineEntry>::empty() + es =~= es);
        assert(parse_defines(s, 0) == Some((es, s.len() as int)));
    }
}



/// Parsing a valid configuration body and re-serializing its `defines`
/// yields text that denotes exactly the parsed entries again: the key set
/// and every `(start, duration)` pair are preserved.
pub proof fn lemma_parse_then_reserialize_defines(s: Seq<u8>)
    ensures
        crate::config::spec_parse_config(s) matches Ok(c) ==> parse_defines(
            ser_defines(c.defines),
            0,
        ) == Some((c.defines, ser_defines(c.defines).len() as int)),
{
    crate::config::lemma_parsed_defines_unique(s);
    if crate::config::spec_parse_config(s) is Ok {
        let c = crate::config::spec_parse_config(s)->Ok_0;
        lemma_defines_round_trip(c.defines);
    }
}

} // verus!
