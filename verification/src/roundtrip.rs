//! The format's central laws: decoding an encoding restores the value, for
//! every well-formed value of every plan, at any position in a larger
//! buffer; and whatever decoding accepts is itself a well-formed value, so
//! a decoded container is always valid, whatever order its keys arrived in.

use vstd::prelude::*;

use crate::bytes::{
    dec_le, le_seq, lemma_le_round_trip, lemma_le_seq_len, lemma_le_val_bound, pow256, w_bytes,
    w_max, Width,
};
use crate::codec::{
    ascending, build_map, build_set, dec, dec_entries_raw, dec_items, dec_keys_raw, enc,
    enc_entries, enc_items, enc_keys, entry_keys, map_insert_s, set_insert_s, wf_val, GVal, Ty,
};
use crate::shape::{
    dec_fields, dec_shape, enc_fields, enc_shape, field_tys, shape_ok, spec_tag_width, wf_fields,
    wf_shape_val, GShapeVal, TypeShape,
};

verus! {

/// A buffer that holds a concatenation holds each part, in place.
proof fn lemma_split(s: Seq<u8>, pos: nat, a: Seq<u8>, b: Seq<u8>)
    requires
        pos + a.len() + b.len() <= s.len(),
        s.subrange(pos as int, (pos + a.len() + b.len()) as int) == a + b,
    ensures
        s.subrange(pos as int, (pos + a.len()) as int) == a,
        s.subrange((pos + a.len()) as int, (pos + a.len() + b.len()) as int) == b,
{
    let whole = s.subrange(pos as int, (pos + a.len() + b.len()) as int);
    assert forall|i: int| 0 <= i < a.len() implies s[pos + i] == a[i] by {
        assert(whole[i] == s[pos as int + i]);
        assert(whole[i] == (a + b)[i]);
        assert((a + b)[i] == a[i]);
    }
    assert forall|i: int| 0 <= i < b.len() implies s[pos + a.len() + i] == b[i] by {
        assert(whole[a.len() + i] == s[pos as int + a.len() + i]);
        assert(whole[a.len() + i] == (a + b)[a.len() + i]);
        assert((a + b)[a.len() + i] == b[i]);
    }
    assert(s.subrange(pos as int, (pos + a.len()) as int) =~= a);
    assert(s.subrange((pos + a.len()) as int, (pos + a.len() + b.len()) as int) =~= b);
}

/// Reading back a little-endian prefix that sits in a buffer.
proof fn lemma_rt_le(w: Width, n: nat, s: Seq<u8>, pos: nat)
    requires
        n <= w_max(w),
        pos + w_bytes(w) <= s.len(),
        s.subrange(pos as int, (pos + w_bytes(w)) as int) == le_seq(w_bytes(w), n),
    ensures
        dec_le(w_bytes(w), s, pos) == Some((n, (pos + w_bytes(w)) as nat)),
{
    crate::bytes::lemma_pow256_increases(0, w_bytes(w));
    assert(n < pow256(w_bytes(w)));
    lemma_le_round_trip(w_bytes(w), n);
}

/// In a strictly ascending sequence every earlier element is smaller.
proof fn lemma_ascending_all(ks: Seq<nat>, i: int, j: int)
    requires
        ascending(ks),
        0 <= i < j < ks.len(),
    ensures
        ks[i] < ks[j],
    decreases j - i,
{
    assert(ks[i] < ks[i + 1]);
    if i + 1 < j {
        lemma_ascending_all(ks, i + 1, j);
    }
}

/// Inserting a key above every held key appends the entry.
proof fn lemma_map_insert_append(es: Seq<(nat, GVal)>, k: nat, v: GVal)
    requires
        forall|i: int| 0 <= i < es.len() ==> (#[trigger] es[i]).0 < k,
    ensures
        map_insert_s(es, k, v) == es + seq![(k, v)],
    decreases es.len(),
{
    if es.len() == 0 {
        assert(map_insert_s(es, k, v) =~= es + seq![(k, v)]);
    } else {
        lemma_map_insert_append(es.drop_first(), k, v);
        assert(map_insert_s(es, k, v) =~= es + seq![(k, v)]);
    }
}

/// Entries read in strictly ascending key order rebuild themselves.
proof fn lemma_build_map_ascending(es: Seq<(nat, GVal)>)
    requires
        ascending(entry_keys(es)),
    ensures
        build_map(es) == es,
    decreases es.len(),
{
    if es.len() > 0 {
        let pre = es.drop_last();
        assert(entry_keys(pre) =~= entry_keys(es).drop_last());
        assert forall|i: int| 0 <= i && i + 1 < entry_keys(pre).len() implies entry_keys(pre)[i]
            < #[trigger] entry_keys(pre)[i + 1] by {
            assert(entry_keys(es)[i] < entry_keys(es)[i + 1]);
        }
        lemma_build_map_ascending(pre);
        assert forall|i: int| 0 <= i < pre.len() implies (#[trigger] pre[i]).0
            < es.last().0 by {
            lemma_ascending_all(entry_keys(es), i, es.len() - 1);
            assert(entry_keys(es)[i] == es[i].0);
            assert(entry_keys(es)[es.len() - 1] == es.last().0);
        }
        lemma_map_insert_append(pre, es.last().0, es.last().1);
        assert(build_map(es) =~= es);
    }
}

/// Inserting an element above every held element appends it.
proof fn lemma_set_insert_append(ks: Seq<nat>, k: nat)
    requires
        forall|i: int| 0 <= i < ks.len() ==> #[trigger] ks[i] < k,
    ensures
        set_insert_s(ks, k) == ks + seq![k],
    decreases ks.len(),
{
    if ks.len() == 0 {
        assert(set_insert_s(ks, k) =~= ks + seq![k]);
    } else {
        lemma_set_insert_append(ks.drop_first(), k);
        assert(set_insert_s(ks, k) =~= ks + seq![k]);
    }
}

/// Elements read in strictly ascending order rebuild themselves.
proof fn lemma_build_set_ascending(ks: Seq<nat>)
    requires
        ascending(ks),
    ensures
        build_set(ks) == ks,
    decreases ks.len(),
{
    if ks.len() > 0 {
        let pre = ks.drop_last();
        assert forall|i: int| 0 <= i && i + 1 < pre.len() implies pre[i] < #[trigger] pre[i
            + 1] by {
            assert(ks[i] < ks[i + 1]);
        }
        lemma_build_set_ascending(pre);
        assert forall|i: int| 0 <= i < pre.len() implies #[trigger] pre[i] < ks.last() by {
            lemma_ascending_all(ks, i, ks.len() - 1);
        }
        lemma_set_insert_append(pre, ks.last());
        assert(build_set(ks) =~= ks);
    }
}

/// Reading back a run of set elements that sits in a buffer.
proof fn lemma_rt_keys(ew: Width, ks: Seq<nat>, s: Seq<u8>, pos: nat)
    requires
        forall|i: int| 0 <= i < ks.len() ==> #[trigger] ks[i] <= w_max(ew),
        pos + enc_keys(ew, ks).len() <= s.len(),
        s.subrange(pos as int, (pos + enc_keys(ew, ks).len()) as int) == enc_keys(ew, ks),
    ensures
        dec_keys_raw(ew, s, pos, ks.len()) == Some(
            (ks, (pos + enc_keys(ew, ks).len()) as nat),
        ),
    decreases ks.len(),
{
    if ks.len() > 0 {
        let a = le_seq(w_bytes(ew), ks[0]);
        let b = enc_keys(ew, ks.drop_first());
        lemma_le_seq_len(w_bytes(ew), ks[0]);
        lemma_split(s, pos, a, b);
        lemma_rt_le(ew, ks[0], s, pos);
        lemma_rt_keys(ew, ks.drop_first(), s, pos + a.len());
        assert(seq![ks[0]] + ks.drop_first() =~= ks);
    }
}

/// Reading back one value that sits in a buffer.
#[verifier::rlimit(100)]
pub proof fn lemma_rt(t: Ty, v: GVal, s: Seq<u8>, pos: nat)
    requires
        wf_val(t, v),
        pos + enc(t, v).len() <= s.len(),
        s.subrange(pos as int, (pos + enc(t, v).len()) as int) == enc(t, v),
    ensures
        dec(t, s, pos) == Some((v, (pos + enc(t, v).len()) as nat)),
    decreases t, 0nat,
{
    match t {
        Ty::Scalar(w) => {
            let n = v->GNum_0;
            lemma_le_seq_len(w_bytes(w), n);
            lemma_rt_le(w, n, s, pos);
        },
        Ty::ListOf(w, et) => {
            let vs = v->GItems_0;
            let a = le_seq(w_bytes(w), vs.len());
            let b = enc_items(*et, vs);
            lemma_le_seq_len(w_bytes(w), vs.len());
            lemma_split(s, pos, a, b);
            lemma_rt_le(w, vs.len(), s, pos);
            lemma_rt_items(*et, vs, s, pos + a.len());
        },
        Ty::MapOf { count, ensure_ordered, key, value } => {
            let es = v->GEntries_0;
            let a = le_seq(w_bytes(count), es.len());
            let b = enc_entries(key, *value, es);
            lemma_le_seq_len(w_bytes(count), es.len());
            lemma_split(s, pos, a, b);
            lemma_rt_le(count, es.len(), s, pos);
            lemma_rt_entries(key, *value, es, s, pos + a.len());
            lemma_build_map_ascending(es);
        },
        Ty::SetOf { count, ensure_ordered, elem } => {
            let ks = v->GKeys_0;
            let a = le_seq(w_bytes(count), ks.len());
            let b = enc_keys(elem, ks);
            lemma_le_seq_len(w_bytes(count), ks.len());
            lemma_split(s, pos, a, b);
            lemma_rt_le(count, ks.len(), s, pos);
            lemma_rt_keys(elem, ks, s, pos + a.len());
            lemma_build_set_ascending(ks);
        },
        Ty::Utf8(w) => {
            let bs = v->GText_0;
            let a = le_seq(w_bytes(w), bs.len());
            lemma_le_seq_len(w_bytes(w), bs.len());
            lemma_split(s, pos, a, bs);
            lemma_rt_le(w, bs.len(), s, pos);
        },
    }
}

/// Reading back a run of sequence elements that sits in a buffer.
pub proof fn lemma_rt_items(et: Ty, vs: Seq<GVal>, s: Seq<u8>, pos: nat)
    requires
        forall|i: int| 0 <= i < vs.len() ==> wf_val(et, #[trigger] vs[i]),
        pos + enc_items(et, vs).len() <= s.len(),
        s.subrange(pos as int, (pos + enc_items(et, vs).len()) as int) == enc_items(et, vs),
    ensures
        dec_items(et, s, pos, vs.len()) == Some(
            (vs, (pos + enc_items(et, vs).len()) as nat),
        ),
    decreases et, vs.len() + 1,
{
    if vs.len() > 0 {
        let a = enc(et, vs[0]);
        let b = enc_items(et, vs.drop_first());
        lemma_split(s, pos, a, b);
        lemma_rt(et, vs[0], s, pos);
        lemma_rt_items(et, vs.drop_first(), s, pos + a.len());
        assert(seq![vs[0]] + vs.drop_first() =~= vs);
    }
}

/// Reading back a run of map entries that sits in a buffer.
pub proof fn lemma_rt_entries(kw: Width, vt: Ty, es: Seq<(nat, GVal)>, s: Seq<u8>, pos: nat)
    requires
        forall|i: int|
            0 <= i < es.len() ==> (#[trigger] es[i]).0 <= w_max(kw) && wf_val(vt, es[i].1),
        pos + enc_entries(kw, vt, es).len() <= s.len(),
        s.subrange(pos as int, (pos + enc_entries(kw, vt, es).len()) as int) == enc_entries(
            kw,
            vt,
            es,
        ),
    ensures
        dec_entries_raw(kw, vt, s, pos, es.len()) == Some(
            (es, (pos + enc_entries(kw, vt, es).len()) as nat),
        ),
    decreases vt, es.len() + 1,
{
    if es.len() > 0 {
        let a = le_seq(w_bytes(kw), es[0].0);
        let b = enc(vt, es[0].1);
        let c = enc_entries(kw, vt, es.drop_first());
        lemma_le_seq_len(w_bytes(kw), es[0].0);
        assert((a + b) + c =~= a + (b + c));
        assert(enc_entries(kw, vt, es) == (a + b) + c);
        lemma_split(s, pos, a, b + c);
        lemma_split(s, pos + a.len(), b, c);
        lemma_rt_le(kw, es[0].0, s, pos);
        lemma_rt(vt, es[0].1, s, pos + a.len());
        lemma_rt_entries(kw, vt, es.drop_first(), s, pos + a.len() + b.len());
        assert(seq![(es[0].0, es[0].1)] + es.drop_first() =~= es);
    }
}

/// Round trip: for every plan and every well-formed value, decoding the
/// encoding yields the value back and consumes exactly the encoding.
pub proof fn lemma_codec_round_trip(t: Ty, v: GVal)
    requires
        wf_val(t, v),
    ensures
        dec(t, enc(t, v), 0) == Some((v, enc(t, v).len())),
{
    assert(enc(t, v).subrange(0, enc(t, v).len() as int) =~= enc(t, v));
    lemma_rt(t, v, enc(t, v), 0);
}

/// Reading back a run of fields that sits in a buffer.
pub proof fn lemma_rt_fields(tys: Seq<Ty>, vals: Seq<GVal>, s: Seq<u8>, pos: nat)
    requires
        wf_fields(tys, vals),
        pos + enc_fields(tys, vals).len() <= s.len(),
        s.subrange(pos as int, (pos + enc_fields(tys, vals).len()) as int) == enc_fields(
            tys,
            vals,
        ),
    ensures
        dec_fields(tys, s, pos) == Some((vals, (pos + enc_fields(tys, vals).len()) as nat)),
    decreases tys.len(),
{
    if tys.len() == 0 {
        assert(vals =~= Seq::<GVal>::empty());
    } else {
        let a = enc(tys[0], vals[0]);
        let b = enc_fields(tys.drop_first(), vals.drop_first());
        lemma_split(s, pos, a, b);
        lemma_rt(tys[0], vals[0], s, pos);
        assert forall|i: int| 0 <= i < tys.drop_first().len() implies wf_val(
            tys.drop_first()[i],
            #[trigger] vals.drop_first()[i],
        ) by {
            assert(wf_val(tys[i + 1], vals[i + 1]));
        }
        lemma_rt_fields(tys.drop_first(), vals.drop_first(), s, pos + a.len());
        assert(seq![vals[0]] + vals.drop_first() =~= vals);
    }
}

/// Round trip at the shape level: for every generatable shape and every
/// value fitting it, decoding the encoding yields the value back — structs
/// with named, unnamed or no fields, and enums under either tag width.
pub proof fn lemma_shape_round_trip(shape: TypeShape, sv: GShapeVal)
    requires
        shape_ok(shape),
        wf_shape_val(shape, sv),
    ensures
        dec_shape(shape, enc_shape(shape, sv), 0) == Some((sv, enc_shape(shape, sv).len())),
{
    let s = enc_shape(shape, sv);
    match shape {
        TypeShape::StructShape(fs) => {
            let vals = sv->GOfStruct_0;
            assert(s.subrange(0, s.len() as int) =~= s);
            lemma_rt_fields(field_tys(fs), vals, s, 0);
        },
        TypeShape::EnumShape(vars) => {
            let idx = sv->GOfEnum_0;
            let vals = sv->GOfEnum_1;
            let tw = spec_tag_width(vars@.len());
            let tys = field_tys(vars@[idx as int].fields);
            let a = le_seq(w_bytes(tw), idx);
            let b = enc_fields(tys, vals);
            lemma_le_seq_len(w_bytes(tw), idx);
            assert(s.subrange(0, s.len() as int) =~= s);
            lemma_split(s, 0, a, b);
            assert(idx <= w_max(tw)) by {
                reveal_with_fuel(pow256, 3);
            }
            lemma_rt_le(tw, idx, s, 0);
            lemma_rt_fields(tys, vals, s, a.len());
        },
    }
}

/// Encoding is injective on well-formed values: two values with the same
/// encoding under one plan are the same value.
pub proof fn lemma_enc_injective(t: Ty, v1: GVal, v2: GVal)
    requires
        wf_val(t, v1),
        wf_val(t, v2),
        enc(t, v1) == enc(t, v2),
    ensures
        v1 == v2,
{
    lemma_codec_round_trip(t, v1);
    lemma_codec_round_trip(t, v2);
}

/// Shape-level encoding is injective on fitting values.
pub proof fn lemma_enc_shape_injective(shape: TypeShape, sv1: GShapeVal, sv2: GShapeVal)
    requires
        shape_ok(shape),
        wf_shape_val(shape, sv1),
        wf_shape_val(shape, sv2),
        enc_shape(shape, sv1) == enc_shape(shape, sv2),
    ensures
        sv1 == sv2,
{
    lemma_shape_round_trip(shape, sv1);
    lemma_shape_round_trip(shape, sv2);
}

/// Inserting a bounded, well-formed entry into a sorted map of such
/// entries keeps it sorted, bounded and well-formed.
proof fn lemma_map_insert_wf(es: Seq<(nat, GVal)>, k: nat, v: GVal, vt: Ty, kmax: nat)
    requires
        ascending(entry_keys(es)),
        forall|i: int|
            0 <= i < es.len() ==> (#[trigger] es[i]).0 <= kmax && wf_val(vt, es[i].1),
        k <= kmax,
        wf_val(vt, v),
    ensures
        ascending(entry_keys(map_insert_s(es, k, v))),
        map_insert_s(es, k, v).len() <= es.len() + 1,
        forall|i: int|
            0 <= i < map_insert_s(es, k, v).len() ==> (#[trigger] map_insert_s(es, k, v)[i]).0
                <= kmax && wf_val(vt, map_insert_s(es, k, v)[i].1),
    decreases es.len(),
{
    let r = map_insert_s(es, k, v);
    let rk = entry_keys(r);
    if es.len() == 0 {
        assert(rk.len() == 1);
    } else if k < es[0].0 {
        assert forall|i: int| 0 <= i && i + 1 < rk.len() implies rk[i] < #[trigger] rk[i
            + 1] by {
            if i == 0 {
                assert(r[0].0 == k && r[1] == es[0]);
            } else {
                let j = i - 1;
                assert(r[i] == es[j] && r[i + 1] == es[j + 1]);
                assert(entry_keys(es)[j] < entry_keys(es)[j + 1]);
            }
        }
    } else if k == es[0].0 {
        assert forall|i: int| 0 <= i && i + 1 < rk.len() implies rk[i] < #[trigger] rk[i
            + 1] by {
            if i == 0 {
                assert(r[0].0 == k && r[1] == es[1]);
                assert(entry_keys(es)[0] < entry_keys(es)[1]);
            } else {
                assert(r[i] == es[i] && r[i + 1] == es[i + 1]);
                assert(entry_keys(es)[i] < entry_keys(es)[i + 1]);
            }
        }
    } else {
        let tail = es.drop_first();
        assert forall|i: int| 0 <= i && i + 1 < entry_keys(tail).len() implies entry_keys(
            tail,
        )[i] < #[trigger] entry_keys(tail)[i + 1] by {
            let j = i + 1;
            assert(entry_keys(es)[j] < entry_keys(es)[j + 1]);
        }
        lemma_map_insert_wf(tail, k, v, vt, kmax);
        let rt = map_insert_s(tail, k, v);
        assert(rt[0].0 == k || (tail.len() > 0 && rt[0] == tail[0]));
        assert(es[0].0 < rt[0].0) by {
            if tail.len() > 0 {
                assert(entry_keys(es)[0] < entry_keys(es)[1]);
            }
        }
        assert forall|i: int| 0 <= i && i + 1 < rk.len() implies rk[i] < #[trigger] rk[i
            + 1] by {
            if i == 0 {
                assert(r[0] == es[0] && r[1] == rt[0]);
            } else {
                let j = i - 1;
                assert(r[i] == rt[j] && r[i + 1] == rt[j + 1]);
                assert(entry_keys(rt)[j] < entry_keys(rt)[j + 1]);
            }
        }
    }
}

/// A map built from bounded, well-formed entries, in any read order, is
/// sorted, no larger than what was read, bounded and well-formed.
proof fn lemma_build_map_wf(read: Seq<(nat, GVal)>, vt: Ty, kmax: nat)
    requires
        forall|i: int|
            0 <= i < read.len() ==> (#[trigger] read[i]).0 <= kmax && wf_val(vt, read[i].1),
    ensures
        ascending(entry_keys(build_map(read))),
        build_map(read).len() <= read.len(),
        forall|i: int|
            0 <= i < build_map(read).len() ==> (#[trigger] build_map(read)[i]).0 <= kmax
                && wf_val(vt, build_map(read)[i].1),
    decreases read.len(),
{
    if read.len() > 0 {
        let pre = read.drop_last();
        lemma_build_map_wf(pre, vt, kmax);
        assert(read[read.len() - 1].0 <= kmax);
        lemma_map_insert_wf(build_map(pre), read.last().0, read.last().1, vt, kmax);
    }
}

/// Inserting a bounded element into a sorted set of such elements keeps it
/// sorted and bounded.
proof fn lemma_set_insert_wf(ks: Seq<nat>, k: nat, kmax: nat)
    requires
        ascending(ks),
        forall|i: int| 0 <= i < ks.len() ==> #[trigger] ks[i] <= kmax,
        k <= kmax,
    ensures
        ascending(set_insert_s(ks, k)),
        set_insert_s(ks, k).len() <= ks.len() + 1,
        forall|i: int|
            0 <= i < set_insert_s(ks, k).len() ==> #[trigger] set_insert_s(ks, k)[i] <= kmax,
    decreases ks.len(),
{
    let r = set_insert_s(ks, k);
    if ks.len() == 0 {
    } else if k < ks[0] {
        assert forall|i: int| 0 <= i && i + 1 < r.len() implies r[i] < #[trigger] r[i + 1] by {
            if i > 0 {
                let j = i - 1;
                assert(ks[j] < ks[j + 1]);
            }
        }
    } else if k == ks[0] {
    } else {
        let tail = ks.drop_first();
        assert forall|i: int| 0 <= i && i + 1 < tail.len() implies tail[i] < #[trigger] tail[i
            + 1] by {
            let j = i + 1;
            assert(ks[j] < ks[j + 1]);
        }
        lemma_set_insert_wf(tail, k, kmax);
        let rt = set_insert_s(tail, k);
        assert(rt[0] == k || (tail.len() > 0 && rt[0] == tail[0]));
        assert(ks[0] < rt[0]) by {
            if tail.len() > 0 {
                assert(ks[0] < ks[1]);
            }
        }
        assert forall|i: int| 0 <= i && i + 1 < r.len() implies r[i] < #[trigger] r[i + 1] by {
            if i == 0 {
                assert(r[0] == ks[0] && r[1] == rt[0]);
            } else {
                let j = i - 1;
                assert(r[i] == rt[j] && r[i + 1] == rt[j + 1]);
                assert(rt[j] < rt[j + 1]);
            }
        }
    }
}

/// A set built from bounded elements, in any read order, is sorted, no
/// larger than what was read, and bounded.
proof fn lemma_build_set_wf(read: Seq<nat>, kmax: nat)
    requires
        forall|i: int| 0 <= i < read.len() ==> #[trigger] read[i] <= kmax,
    ensures
        ascending(build_set(read)),
        build_set(read).len() <= read.len(),
        forall|i: int| 0 <= i < build_set(read).len() ==> #[trigger] build_set(read)[i] <= kmax,
    decreases read.len(),
{
    if read.len() > 0 {
        lemma_build_set_wf(read.drop_last(), kmax);
        assert(read[read.len() - 1] <= kmax);
        lemma_set_insert_wf(build_set(read.drop_last()), read.last(), kmax);
    }
}

/// A value read little-endian at a width fits that width.
proof fn lemma_dec_le_bound(w: Width, s: Seq<u8>, pos: nat)
    ensures
        dec_le(w_bytes(w), s, pos) matches Some(vp) ==> vp.0 <= w_max(w),
{
    if pos + w_bytes(w) <= s.len() {
        lemma_le_val_bound(s.subrange(pos as int, (pos + w_bytes(w)) as int));
    }
}

/// Whatever decodes under a plan is a well-formed value of that plan: the
/// counts fit their widths, scalars and keys fit theirs, and a decoded map
/// or set is a sorted, duplicate-free container, whatever order its keys
/// arrived in.
pub proof fn lemma_dec_wf(t: Ty, s: Seq<u8>, pos: nat)
    ensures
        dec(t, s, pos) matches Some(vp) ==> wf_val(t, vp.0),
    decreases t, 0nat,
{
    match t {
        Ty::Scalar(w) => {
            lemma_dec_le_bound(w, s, pos);
        },
        Ty::ListOf(w, et) => {
            lemma_dec_le_bound(w, s, pos);
            match dec_le(w_bytes(w), s, pos) {
                Option::None => {},
                Option::Some((n, p)) => {
                    lemma_dec_items_wf(*et, s, p, n);
                },
            }
        },
        Ty::MapOf { count, ensure_ordered, key, value } => {
            lemma_dec_le_bound(count, s, pos);
            match dec_le(w_bytes(count), s, pos) {
                Option::None => {},
                Option::Some((n, p)) => {
                    lemma_dec_entries_wf(key, *value, s, p, n);
                    match dec_entries_raw(key, *value, s, p, n) {
                        Option::None => {},
                        Option::Some((es, _p2)) => {
                            lemma_build_map_wf(es, *value, w_max(key));
                        },
                    }
                },
            }
        },
        Ty::SetOf { count, ensure_ordered, elem } => {
            lemma_dec_le_bound(count, s, pos);
            match dec_le(w_bytes(count), s, pos) {
                Option::None => {},
                Option::Some((n, p)) => {
                    lemma_dec_keys_wf(elem, s, p, n);
                    match dec_keys_raw(elem, s, p, n) {
                        Option::None => {},
                        Option::Some((ks, _p2)) => {
                            lemma_build_set_wf(ks, w_max(elem));
                        },
                    }
                },
            }
        },
        Ty::Utf8(w) => {
            lemma_dec_le_bound(w, s, pos);
        },
    }
}

/// Field values read in a row are one per plan, each well-formed.
proof fn lemma_dec_fields_wf(tys: Seq<Ty>, s: Seq<u8>, pos: nat)
    ensures
        dec_fields(tys, s, pos) matches Some(vp) ==> wf_fields(tys, vp.0),
    decreases tys.len(),
{
    if tys.len() > 0 {
        match dec(tys[0], s, pos) {
            Option::None => {},
            Option::Some((v, p)) => {
                lemma_dec_wf(tys[0], s, pos);
                lemma_dec_fields_wf(tys.drop_first(), s, p);
                match dec_fields(tys.drop_first(), s, p) {
                    Option::None => {},
                    Option::Some((vs, _p2)) => {
                        let whole = seq![v] + vs;
                        assert forall|i: int| 0 <= i < tys.len() implies wf_val(
                            tys[i],
                            #[trigger] whole[i],
                        ) by {
                            if i > 0 {
                                assert(whole[i] == vs[i - 1]);
                                assert(tys.drop_first()[i - 1] == tys[i]);
                                assert(wf_val(tys.drop_first()[i - 1], vs[i - 1]));
                            }
                        }
                    },
                }
            },
        }
    }
}

/// Whatever decodes under a shape fits that shape: the right number of
/// well-formed field values, and for an enum a variant index below the
/// variant count.
pub proof fn lemma_dec_shape_wf(shape: TypeShape, s: Seq<u8>, pos: nat)
    ensures
        dec_shape(shape, s, pos) matches Some(vp) ==> wf_shape_val(shape, vp.0),
{
    match shape {
        TypeShape::StructShape(fs) => {
            lemma_dec_fields_wf(field_tys(fs), s, pos);
        },
        TypeShape::EnumShape(vars) => {
            let tw = spec_tag_width(vars@.len());
            match dec_le(w_bytes(tw), s, pos) {
                Option::None => {},
                Option::Some((tag, p)) => {
                    if tag < vars@.len() {
                        lemma_dec_fields_wf(field_tys(vars@[tag as int].fields), s, p);
                    }
                },
            }
        },
    }
}

/// Sequence elements read in a row are exactly as many as asked for, each
/// well-formed.
proof fn lemma_dec_items_wf(et: Ty, s: Seq<u8>, pos: nat, n: nat)
    ensures
        dec_items(et, s, pos, n) matches Some(vp) ==> vp.0.len() == n && (forall|i: int|
            0 <= i < vp.0.len() ==> wf_val(et, #[trigger] vp.0[i])),
    decreases et, n + 1,
{
    if n > 0 {
        match dec(et, s, pos) {
            Option::None => {},
            Option::Some((v, p)) => {
                lemma_dec_wf(et, s, pos);
                lemma_dec_items_wf(et, s, p, (n - 1) as nat);
            },
        }
    }
}

/// Map entries read in a row are exactly as many as asked for, keys fitting
/// the key width and values well-formed.
proof fn lemma_dec_entries_wf(kw: Width, vt: Ty, s: Seq<u8>, pos: nat, n: nat)
    ensures
        dec_entries_raw(kw, vt, s, pos, n) matches Some(vp) ==> vp.0.len() == n && (forall|i: int|
            0 <= i < vp.0.len() ==> (#[trigger] vp.0[i]).0 <= w_max(kw) && wf_val(
                vt,
                vp.0[i].1,
            )),
    decreases vt, n + 1,
{
    if n > 0 {
        lemma_dec_le_bound(kw, s, pos);
        match dec_le(w_bytes(kw), s, pos) {
            Option::None => {},
            Option::Some((k, p)) => {
                match dec(vt, s, p) {
                    Option::None => {},
                    Option::Some((v, p2)) => {
                        lemma_dec_wf(vt, s, p);
                        lemma_dec_entries_wf(kw, vt, s, p2, (n - 1) as nat);
                    },
                }
            },
        }
    }
}

/// Set elements read in a row are exactly as many as asked for, each
/// fitting the element width.
proof fn lemma_dec_keys_wf(ew: Width, s: Seq<u8>, pos: nat, n: nat)
    ensures
        dec_keys_raw(ew, s, pos, n) matches Some(vp) ==> vp.0.len() == n && (forall|i: int|
            0 <= i < vp.0.len() ==> #[trigger] vp.0[i] <= w_max(ew)),
    decreases n,
{
    if n > 0 {
        lemma_dec_le_bound(ew, s, pos);
        match dec_le(w_bytes(ew), s, pos) {
            Option::None => {},
            Option::Some((k, p)) => {
                lemma_dec_keys_wf(ew, s, p, (n - 1) as nat);
            },
        }
    }
}

} // verus!
