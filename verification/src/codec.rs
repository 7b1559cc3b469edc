//! The wire format itself, as an interpreter over per-field encoding plans:
//! scalars, length-prefixed sequences, maps, sets and strings. Encoding
//! writes a count prefix of the configured width followed by the elements in
//! ascending key order; decoding mirrors it, optionally enforcing strictly
//! increasing keys.

use vstd::prelude::*;

use crate::bytes::{
    dec_le, le_seq, read_le_bytes, w_bytes, w_max, width_bytes, width_max, write_le_bytes, Width,
};

verus! {

/// A field's encoding plan: either a scalar of fixed width, or a container
/// whose element count is written as a little-endian prefix of the configured
/// width. Map and set plans record whether decoding must insist on strictly
/// increasing keys.
#[derive(PartialEq, Eq, Debug)]
pub enum Ty {
    /// An unsigned scalar of the given width.
    Scalar(Width),
    /// A sequence: count prefix, then the elements, each by the inner plan.
    ListOf(Width, Box<Ty>),
    /// A map: count prefix, then key/value pairs in ascending key order.
    MapOf { count: Width, ensure_ordered: bool, key: Width, value: Box<Ty> },
    /// A set: count prefix, then the elements in ascending order.
    SetOf { count: Width, ensure_ordered: bool, elem: Width },
    /// A string: count prefix, then that many raw bytes.
    Utf8(Width),
}

/// A runtime value the codec can carry.
#[derive(PartialEq, Eq, Debug)]
pub enum Val {
    /// A scalar.
    Num(u64),
    /// A sequence's elements, in order.
    Items(Vec<Val>),
    /// A map's entries; well-formed maps keep keys strictly ascending.
    Entries(Vec<(u64, Val)>),
    /// A set's elements; well-formed sets keep them strictly ascending.
    Keys(Vec<u64>),
    /// A string's raw bytes.
    Text(Vec<u8>),
}

/// The mathematical shadow of a value.
pub enum GVal {
    /// A scalar.
    GNum(nat),
    /// A sequence's elements.
    GItems(Seq<GVal>),
    /// A map's entries.
    GEntries(Seq<(nat, GVal)>),
    /// A set's elements.
    GKeys(Seq<nat>),
    /// A string's raw bytes.
    GText(Seq<u8>),
}

/// The shadows of a sequence of values.
pub open spec fn view_vals(s: Seq<Val>) -> Seq<GVal>
    decreases s,
{
    if s.len() == 0 {
        Seq::empty()
    } else {
        seq![view_val(s[0])] + view_vals(s.drop_first())
    }
}

/// The shadows of a sequence of map entries.
pub open spec fn view_entries(s: Seq<(u64, Val)>) -> Seq<(nat, GVal)>
    decreases s,
{
    if s.len() == 0 {
        Seq::empty()
    } else {
        seq![(s[0].0 as nat, view_val(s[0].1))] + view_entries(s.drop_first())
    }
}

/// The mathematical shadow of a value.
pub open spec fn view_val(v: Val) -> GVal
    decreases v,
{
    match v {
        Val::Num(n) => GVal::GNum(n as nat),
        Val::Items(vs) => GVal::GItems(view_vals(vs@)),
        Val::Entries(es) => GVal::GEntries(view_entries(es@)),
        Val::Keys(ks) => GVal::GKeys(ks@.map_values(|k: u64| k as nat)),
        Val::Text(bs) => GVal::GText(bs@),
    }
}

/// A shadow sequence is as long as its source.
pub proof fn lemma_view_vals_len(s: Seq<Val>)
    ensures
        view_vals(s).len() == s.len(),
    decreases s,
{
    if s.len() > 0 {
        lemma_view_vals_len(s.drop_first());
    }
}

/// A shadow sequence mirrors its source pointwise.
pub proof fn lemma_view_vals_index(s: Seq<Val>, i: int)
    requires
        0 <= i < s.len(),
    ensures
        view_vals(s).len() == s.len(),
        view_vals(s)[i] == view_val(s[i]),
    decreases i,
{
    lemma_view_vals_len(s);
    if i > 0 {
        lemma_view_vals_index(s.drop_first(), i - 1);
    }
}

/// A shadow entry sequence is as long as its source.
pub proof fn lemma_view_entries_len(s: Seq<(u64, Val)>)
    ensures
        view_entries(s).len() == s.len(),
    decreases s,
{
    if s.len() > 0 {
        lemma_view_entries_len(s.drop_first());
    }
}

/// A shadow entry sequence mirrors its source pointwise.
pub proof fn lemma_view_entries_index(s: Seq<(u64, Val)>, i: int)
    requires
        0 <= i < s.len(),
    ensures
        view_entries(s).len() == s.len(),
        view_entries(s)[i] == (s[i].0 as nat, view_val(s[i].1)),
    decreases i,
{
    lemma_view_entries_len(s);
    if i > 0 {
        lemma_view_entries_index(s.drop_first(), i - 1);
    }
}

/// The keys of a sequence of map entries, in entry order.
pub open spec fn entry_keys(es: Seq<(nat, GVal)>) -> Seq<nat> {
    es.map_values(|e: (nat, GVal)| e.0)
}

/// Strictly increasing left to right.
pub open spec fn ascending(ks: Seq<nat>) -> bool {
    forall|i: int| 0 <= i && i + 1 < ks.len() ==> ks[i] < #[trigger] ks[i + 1]
}

/// A value fits a plan: it has the plan's form, every count fits its
/// configured width, scalars and keys fit their widths, and map/set keys are
/// strictly ascending, mirroring an ordered container's iteration order.
pub open spec fn wf_val(t: Ty, v: GVal) -> bool
    decreases t,
{
    match t {
        Ty::Scalar(w) => v matches GVal::GNum(n) && n <= w_max(w),
        Ty::ListOf(w, et) => v matches GVal::GItems(vs) && vs.len() <= w_max(w) && (forall|i: int|
            0 <= i < vs.len() ==> wf_val(*et, #[trigger] vs[i])),
        Ty::MapOf { count, ensure_ordered, key, value } => v matches GVal::GEntries(es) && es.len()
            <= w_max(count) && ascending(entry_keys(es)) && (forall|i: int|
            0 <= i < es.len() ==> (#[trigger] es[i]).0 <= w_max(key) && wf_val(*value, es[i].1)),
        Ty::SetOf { count, ensure_ordered, elem } => v matches GVal::GKeys(ks) && ks.len() <= w_max(
            count,
        ) && ascending(ks) && (forall|i: int| 0 <= i < ks.len() ==> #[trigger] ks[i] <= w_max(elem)),
        Ty::Utf8(w) => v matches GVal::GText(bs) && bs.len() <= w_max(w),
    }
}

/// The encoding of one value under a plan. Meaningful when the value is
/// well-formed for the plan; an ill-formed pairing encodes as garbage that
/// the executable encoder refuses.
pub open spec fn enc(t: Ty, v: GVal) -> Seq<u8>
    decreases t, 0nat,
{
    match t {
        Ty::Scalar(w) => match v {
            GVal::GNum(n) => le_seq(w_bytes(w), n),
            _ => Seq::empty(),
        },
        Ty::ListOf(w, et) => match v {
            GVal::GItems(vs) => le_seq(w_bytes(w), vs.len()) + enc_items(*et, vs),
            _ => Seq::empty(),
        },
        Ty::MapOf { count, ensure_ordered, key, value } => match v {
            GVal::GEntries(es) => le_seq(w_bytes(count), es.len()) + enc_entries(key, *value, es),
            _ => Seq::empty(),
        },
        Ty::SetOf { count, ensure_ordered, elem } => match v {
            GVal::GKeys(ks) => le_seq(w_bytes(count), ks.len()) + enc_keys(elem, ks),
            _ => Seq::empty(),
        },
        Ty::Utf8(w) => match v {
            GVal::GText(bs) => le_seq(w_bytes(w), bs.len()) + bs,
            _ => Seq::empty(),
        },
    }
}

/// The concatenated encodings of a sequence's elements.
pub open spec fn enc_items(et: Ty, vs: Seq<GVal>) -> Seq<u8>
    decreases et, vs.len() + 1,
{
    if vs.len() == 0 {
        Seq::empty()
    } else {
        enc(et, vs[0]) + enc_items(et, vs.drop_first())
    }
}

/// The concatenated encodings of a map's entries: each key little-endian at
/// the key width, immediately followed by its value.
pub open spec fn enc_entries(kw: Width, vt: Ty, es: Seq<(nat, GVal)>) -> Seq<u8>
    decreases vt, es.len() + 1,
{
    if es.len() == 0 {
        Seq::empty()
    } else {
        le_seq(w_bytes(kw), es[0].0) + enc(vt, es[0].1) + enc_entries(kw, vt, es.drop_first())
    }
}

/// The concatenated encodings of a set's elements.
pub open spec fn enc_keys(ew: Width, ks: Seq<nat>) -> Seq<u8>
    decreases ks.len(),
{
    if ks.len() == 0 {
        Seq::empty()
    } else {
        le_seq(w_bytes(ew), ks[0]) + enc_keys(ew, ks.drop_first())
    }
}

/// Insert one entry into a key-sorted entry sequence; an equal key replaces
/// the held value, so later writes win.
pub open spec fn map_insert_s(es: Seq<(nat, GVal)>, k: nat, v: GVal) -> Seq<(nat, GVal)>
    decreases es.len(),
{
    if es.len() == 0 {
        seq![(k, v)]
    } else if k < es[0].0 {
        seq![(k, v)] + es
    } else if k == es[0].0 {
        seq![(k, v)] + es.drop_first()
    } else {
        seq![es[0]] + map_insert_s(es.drop_first(), k, v)
    }
}

/// The sorted map the decoded entries resolve to, inserting in read order:
/// the container's own semantics, where the last write to a key wins.
pub open spec fn build_map(read: Seq<(nat, GVal)>) -> Seq<(nat, GVal)>
    decreases read.len(),
{
    if read.len() == 0 {
        Seq::empty()
    } else {
        map_insert_s(build_map(read.drop_last()), read.last().0, read.last().1)
    }
}

/// Insert one element into a sorted element sequence; duplicates collapse.
pub open spec fn set_insert_s(ks: Seq<nat>, k: nat) -> Seq<nat>
    decreases ks.len(),
{
    if ks.len() == 0 {
        seq![k]
    } else if k < ks[0] {
        seq![k] + ks
    } else if k == ks[0] {
        ks
    } else {
        seq![ks[0]] + set_insert_s(ks.drop_first(), k)
    }
}

/// The sorted set the decoded elements resolve to, inserting in read order.
pub open spec fn build_set(read: Seq<nat>) -> Seq<nat>
    decreases read.len(),
{
    if read.len() == 0 {
        Seq::empty()
    } else {
        set_insert_s(build_set(read.drop_last()), read.last())
    }
}

/// Decoding one value under a plan at a position: the value and the position
/// after it, or nothing on truncated input or an ordering violation.
pub open spec fn dec(t: Ty, s: Seq<u8>, pos: nat) -> Option<(GVal, nat)>
    decreases t, 0nat,
{
    match t {
        Ty::Scalar(w) => match dec_le(w_bytes(w), s, pos) {
            Option::None => None,
            Option::Some((n, p)) => Some((GVal::GNum(n), p)),
        },
        Ty::ListOf(w, et) => match dec_le(w_bytes(w), s, pos) {
            Option::None => None,
            Option::Some((n, p)) => match dec_items(*et, s, p, n) {
                Option::None => None,
                Option::Some((vs, p2)) => Some((GVal::GItems(vs), p2)),
            },
        },
        Ty::MapOf { count, ensure_ordered, key, value } => match dec_le(w_bytes(count), s, pos) {
            Option::None => None,
            Option::Some((n, p)) => match dec_entries_raw(key, *value, s, p, n) {
                Option::None => None,
                Option::Some((es, p2)) => if ensure_ordered && !ascending(entry_keys(es)) {
                    None
                } else {
                    Some((GVal::GEntries(build_map(es)), p2))
                },
            },
        },
        Ty::SetOf { count, ensure_ordered, elem } => match dec_le(w_bytes(count), s, pos) {
            Option::None => None,
            Option::Some((n, p)) => match dec_keys_raw(elem, s, p, n) {
                Option::None => None,
                Option::Some((ks, p2)) => if ensure_ordered && !ascending(ks) {
                    None
                } else {
                    Some((GVal::GKeys(build_set(ks)), p2))
                },
            },
        },
        Ty::Utf8(w) => match dec_le(w_bytes(w), s, pos) {
            Option::None => None,
            Option::Some((n, p)) => if p + n <= s.len() {
                Some((GVal::GText(s.subrange(p as int, (p + n) as int)), (p + n) as nat))
            } else {
                None
            },
        },
    }
}

/// Decoding n sequence elements in a row, in read order.
pub open spec fn dec_items(et: Ty, s: Seq<u8>, pos: nat, n: nat) -> Option<(Seq<GVal>, nat)>
    decreases et, n + 1,
{
    if n == 0 {
        Some((Seq::empty(), pos))
    } else {
        match dec(et, s, pos) {
            Option::None => None,
            Option::Some((v, p)) => match dec_items(et, s, p, (n - 1) as nat) {
                Option::None => None,
                Option::Some((vs, p2)) => Some((seq![v] + vs, p2)),
            },
        }
    }
}

/// Decoding n map entries in a row, in read order, before any ordering check.
pub open spec fn dec_entries_raw(kw: Width, vt: Ty, s: Seq<u8>, pos: nat, n: nat) -> Option<
    (Seq<(nat, GVal)>, nat),
>
    decreases vt, n + 1,
{
    if n == 0 {
        Some((Seq::empty(), pos))
    } else {
        match dec_le(w_bytes(kw), s, pos) {
            Option::None => None,
            Option::Some((k, p)) => match dec(vt, s, p) {
                Option::None => None,
                Option::Some((v, p2)) => match dec_entries_raw(kw, vt, s, p2, (n - 1) as nat) {
                    Option::None => None,
                    Option::Some((es, p3)) => Some((seq![(k, v)] + es, p3)),
                },
            },
        }
    }
}

/// Decoding n set elements in a row, in read order, before any ordering check.
pub open spec fn dec_keys_raw(ew: Width, s: Seq<u8>, pos: nat, n: nat) -> Option<(Seq<nat>, nat)>
    decreases n,
{
    if n == 0 {
        Some((Seq::empty(), pos))
    } else {
        match dec_le(w_bytes(ew), s, pos) {
            Option::None => None,
            Option::Some((k, p)) => match dec_keys_raw(ew, s, p, (n - 1) as nat) {
                Option::None => None,
                Option::Some((ks, p2)) => Some((seq![k] + ks, p2)),
            },
        }
    }
}

/// Why a value cannot be encoded under its plan.
#[derive(Clone, Copy, PartialEq, Eq, Structural, Debug)]
pub enum EncodeError {
    /// The value does not fit the plan: wrong form, a count over the
    /// configured width's maximum, an oversized scalar or key, or map/set
    /// keys out of ascending order.
    NotEncodable,
}

/// Why decoding failed. The kinds are informative; the contract pins down
/// exactly when decoding fails, not which kind is reported.
#[derive(Clone, Copy, PartialEq, Eq, Structural, Debug)]
pub enum FormatError {
    /// The input ended before the value did.
    TruncatedInput,
    /// An enum tag at or beyond the variant count.
    TagOutOfRange,
    /// Keys not strictly increasing where the plan insists on it.
    KeysOutOfOrder,
}

/// Whether a count fits the given width.
fn len_fits(len: usize, w: Width) -> (b: bool)
    ensures
        b == (len as nat <= w_max(w)),
{
    let m = width_max(w);
    if m >= usize::MAX as u64 {
        true
    } else {
        len <= m as usize
    }
}

/// Whether a map's keys are strictly increasing, adjacent pair by pair.
fn entries_ascending(es: &Vec<(u64, Val)>) -> (b: bool)
    ensures
        b == ascending(entry_keys(view_entries(es@))),
{
    proof {
        lemma_view_entries_len(es@);
    }
    let n = es.len();
    let mut i: usize = 0;
    while n > 0 && i < n - 1
        invariant
            n == es@.len(),
            i <= n,
            view_entries(es@).len() == n,
            forall|j: int| 0 <= j && j + 1 <= i ==> es@[j].0 < #[trigger] es@[j + 1].0,
        decreases n - i,
    {
        if es[i].0 >= es[i + 1].0 {
            proof {
                lemma_view_entries_index(es@, i as int);
                lemma_view_entries_index(es@, i as int + 1);
                assert(entry_keys(view_entries(es@))[i as int] >= entry_keys(view_entries(es@))[
                    i as int + 1
                ]);
            }
            return false;
        }
        i += 1;
    }
    proof {
        assert forall|j: int| 0 <= j && j + 1 < view_entries(es@).len() implies entry_keys(
            view_entries(es@),
        )[j] < #[trigger] entry_keys(view_entries(es@))[j + 1] by {
            lemma_view_entries_index(es@, j);
            lemma_view_entries_index(es@, j + 1);
        }
    }
    true
}

/// Whether a set's elements are strictly increasing, adjacent pair by pair.
fn keys_ascending(ks: &Vec<u64>) -> (b: bool)
    ensures
        b == ascending(ks@.map_values(|k: u64| k as nat)),
{
    let n = ks.len();
    let mut i: usize = 0;
    while n > 0 && i < n - 1
        invariant
            n == ks@.len(),
            i <= n,
            forall|j: int| 0 <= j && j + 1 <= i ==> ks@[j] < #[trigger] ks@[j + 1],
        decreases n - i,
    {
        if ks[i] >= ks[i + 1] {
            proof {
                let m = ks@.map_values(|k: u64| k as nat);
                assert(m[i as int] == ks@[i as int] as nat);
                assert(m[i as int + 1] == ks@[i as int + 1] as nat);
            }
            return false;
        }
        i += 1;
    }
    proof {
        let m = ks@.map_values(|k: u64| k as nat);
        assert forall|j: int| 0 <= j && j + 1 < m.len() implies m[j] < #[trigger] m[j + 1] by {
            assert(m[j] == ks@[j] as nat);
            assert(m[j + 1] == ks@[j + 1] as nat);
        }
    }
    true
}

/// Whether a value is well-formed for a plan; the executable face of
/// `wf_val`.
pub fn check_val(t: &Ty, v: &Val) -> (r: bool)
    ensures
        r == wf_val(*t, view_val(*v)),
    decreases t, 0nat,
{
    match t {
        Ty::Scalar(w) => match v {
            Val::Num(n) => {
                let b = *n <= width_max(*w);
                proof {
                    assert(b == wf_val(*t, view_val(*v)));
                }
                b
            },
            _ => {
                proof {
                    assert(false == wf_val(*t, view_val(*v)));
                }
                false
            },
        },
        Ty::ListOf(w, et) => match v {
            Val::Items(vs) => {
                proof {
                    lemma_view_vals_len(vs@);
                }
                let b = len_fits(vs.len(), *w) && check_items(et, vs, 0);
                proof {
                    assert(b == wf_val(*t, view_val(*v)));
                }
                b
            },
            _ => {
                proof {
                    assert(false == wf_val(*t, view_val(*v)));
                }
                false
            },
        },
        Ty::MapOf { count, ensure_ordered, key, value } => match v {
            Val::Entries(es) => {
                proof {
                    lemma_view_entries_len(es@);
                }
                let b = len_fits(es.len(), *count) && entries_ascending(es) && check_entries(
                    *key,
                    value,
                    es,
                    0,
                );
                proof {
                    assert(b == wf_val(*t, view_val(*v)));
                }
                b
            },
            _ => {
                proof {
                    assert(false == wf_val(*t, view_val(*v)));
                }
                false
            },
        },
        Ty::SetOf { count, ensure_ordered, elem } => match v {
            Val::Keys(ks) => {
                proof {
                    let m = ks@.map_values(|k: u64| k as nat);
                    assert forall|j: int| 0 <= j < m.len() implies #[trigger] m[j] == ks@[j]
                        as nat by {}
                    assert forall|j: int| 0 <= j < ks@.len() implies (#[trigger] ks@[j]) as nat
                        == m[j] by {}
                }
                let b = len_fits(ks.len(), *count) && keys_ascending(ks) && keys_fit(ks, *elem);
                proof {
                    assert(b == wf_val(*t, view_val(*v)));
                }
                b
            },
            _ => {
                proof {
                    assert(false == wf_val(*t, view_val(*v)));
                }
                false
            },
        },
        Ty::Utf8(w) => match v {
            Val::Text(bs) => {
                let b = len_fits(bs.len(), *w);
                proof {
                    assert(b == wf_val(*t, view_val(*v)));
                }
                b
            },
            _ => {
                proof {
                    assert(false == wf_val(*t, view_val(*v)));
                }
                false
            },
        },
    }
}

/// Whether every element from index i on is well-formed for the plan.
fn check_items(et: &Ty, vs: &Vec<Val>, i: usize) -> (r: bool)
    requires
        i <= vs@.len(),
    ensures
        r == (forall|j: int|
            i <= j < vs@.len() ==> wf_val(*et, #[trigger] view_vals(vs@)[j])),
    decreases et, vs@.len() - i + 1,
{
    proof {
        lemma_view_vals_len(vs@);
    }
    if i == vs.len() {
        true
    } else {
        proof {
            lemma_view_vals_index(vs@, i as int);
        }
        check_val(et, &vs[i]) && check_items(et, vs, i + 1)
    }
}

/// Whether every entry from index i on has a fitting key and a well-formed
/// value.
fn check_entries(kw: Width, vt: &Ty, es: &Vec<(u64, Val)>, i: usize) -> (r: bool)
    requires
        i <= es@.len(),
    ensures
        r == (forall|j: int|
            i <= j < es@.len() ==> (#[trigger] view_entries(es@)[j]).0 <= w_max(kw) && wf_val(
                *vt,
                view_entries(es@)[j].1,
            )),
    decreases vt, es@.len() - i + 1,
{
    proof {
        lemma_view_entries_len(es@);
    }
    if i == es.len() {
        true
    } else {
        proof {
            lemma_view_entries_index(es@, i as int);
        }
        es[i].0 <= width_max(kw) && check_val(vt, &es[i].1) && check_entries(kw, vt, es, i + 1)
    }
}

/// Whether every set element fits the element width.
fn keys_fit(ks: &Vec<u64>, ew: Width) -> (r: bool)
    ensures
        r == (forall|j: int| 0 <= j < ks@.len() ==> (#[trigger] ks@[j]) as nat <= w_max(ew)),
{
    let n = ks.len();
    let mut i: usize = 0;
    let m = width_max(ew);
    while i < n
        invariant
            n == ks@.len(),
            m as nat == w_max(ew),
            i <= n,
            forall|j: int| 0 <= j < i ==> (#[trigger] ks@[j]) as nat <= w_max(ew),
        decreases n - i,
    {
        if ks[i] > m {
            return false;
        }
        i += 1;
    }
    true
}

/// Append the encoding of a well-formed value.
pub fn encode_val(t: &Ty, v: &Val, out: &mut Vec<u8>)
    requires
        wf_val(*t, view_val(*v)),
    ensures
        final (out)@ == old(out)@ + enc(*t, view_val(*v)),
    decreases t, 0nat,
{
    match t {
        Ty::Scalar(w) => match v {
            Val::Num(n) => {
                write_le_bytes(width_bytes(*w), *n, out);
            },
            _ => {
                proof {
                    assert(false);
                }
            },
        },
        Ty::ListOf(w, et) => match v {
            Val::Items(vs) => {
                proof {
                    lemma_view_vals_len(vs@);
                }
                write_le_bytes(width_bytes(*w), vs.len() as u64, out);
                encode_items(et, vs, 0, out);
                proof {
                    assert(view_vals(vs@).skip(0) =~= view_vals(vs@));
                    assert(out@ =~= old(out)@ + enc(*t, view_val(*v)));
                }
            },
            _ => {
                proof {
                    assert(false);
                }
            },
        },
        Ty::MapOf { count, ensure_ordered, key, value } => match v {
            Val::Entries(es) => {
                proof {
                    lemma_view_entries_len(es@);
                }
                write_le_bytes(width_bytes(*count), es.len() as u64, out);
                encode_entries(*key, value, es, 0, out);
                proof {
                    assert(view_entries(es@).skip(0) =~= view_entries(es@));
                    assert(out@ =~= old(out)@ + enc(*t, view_val(*v)));
                }
            },
            _ => {
                proof {
                    assert(false);
                }
            },
        },
        Ty::SetOf { count, ensure_ordered, elem } => match v {
            Val::Keys(ks) => {
                write_le_bytes(width_bytes(*count), ks.len() as u64, out);
                encode_keys(*elem, ks, 0, out);
                proof {
                    assert(ks@.map_values(|k: u64| k as nat).skip(0) =~= ks@.map_values(
                        |k: u64| k as nat,
                    ));
                    assert(out@ =~= old(out)@ + enc(*t, view_val(*v)));
                }
            },
            _ => {
                proof {
                    assert(false);
                }
            },
        },
        Ty::Utf8(w) => match v {
            Val::Text(bs) => {
                write_le_bytes(width_bytes(*w), bs.len() as u64, out);
                let n = bs.len();
                let mut i: usize = 0;
                while i < n
                    invariant
                        n == bs@.len(),
                        i <= n,
                        out@ == old(out)@ + le_seq(w_bytes(*w), bs@.len()) + bs@.subrange(
                            0,
                            i as int,
                        ),
                    decreases n - i,
                {
                    out.push(bs[i]);
                    proof {
                        assert(out@ =~= old(out)@ + le_seq(w_bytes(*w), bs@.len()) + bs@.subrange(
                            0,
                            i as int + 1,
                        ));
                    }
                    i += 1;
                }
                proof {
                    assert(bs@.subrange(0, n as int) =~= bs@);
                    assert(out@ =~= old(out)@ + enc(*t, view_val(*v)));
                }
            },
            _ => {
                proof {
                    assert(false);
                }
            },
        },
    }
}

/// Append the encodings of the elements from index i on.
fn encode_items(et: &Ty, vs: &Vec<Val>, i: usize, out: &mut Vec<u8>)
    requires
        i <= vs@.len(),
        forall|j: int| i <= j < vs@.len() ==> wf_val(*et, #[trigger] view_vals(vs@)[j]),
    ensures
        final (out)@ == old(out)@ + enc_items(*et, view_vals(vs@).skip(i as int)),
    decreases et, vs@.len() - i + 1,
{
    proof {
        lemma_view_vals_len(vs@);
    }
    if i == vs.len() {
        proof {
            assert(view_vals(vs@).skip(i as int) =~= Seq::<GVal>::empty());
            assert(out@ =~= old(out)@ + enc_items(*et, view_vals(vs@).skip(i as int)));
        }
        return ;
    }
    proof {
        lemma_view_vals_index(vs@, i as int);
    }
    encode_val(et, &vs[i], out);
    encode_items(et, vs, i + 1, out);
    proof {
        let g = view_vals(vs@);
        lemma_view_vals_index(vs@, i as int);
        assert(g.skip(i as int)[0] == g[i as int]);
        assert(g.skip(i as int).drop_first() =~= g.skip(i as int + 1));
        assert(out@ =~= old(out)@ + enc_items(*et, g.skip(i as int)));
    }
}

/// Append the encodings of the entries from index i on.
fn encode_entries(kw: Width, vt: &Ty, es: &Vec<(u64, Val)>, i: usize, out: &mut Vec<u8>)
    requires
        i <= es@.len(),
        forall|j: int| i <= j < es@.len() ==> wf_val(*vt, (#[trigger] view_entries(es@)[j]).1),
    ensures
        final (out)@ == old(out)@ + enc_entries(kw, *vt, view_entries(es@).skip(i as int)),
    decreases vt, es@.len() - i + 1,
{
    proof {
        lemma_view_entries_len(es@);
    }
    if i == es.len() {
        proof {
            assert(view_entries(es@).skip(i as int) =~= Seq::<(nat, GVal)>::empty());
            assert(out@ =~= old(out)@ + enc_entries(kw, *vt, view_entries(es@).skip(i as int)));
        }
        return ;
    }
    proof {
        lemma_view_entries_index(es@, i as int);
    }
    write_le_bytes(width_bytes(kw), es[i].0, out);
    encode_val(vt, &es[i].1, out);
    encode_entries(kw, vt, es, i + 1, out);
    proof {
        let g = view_entries(es@);
        lemma_view_entries_index(es@, i as int);
        assert(g.skip(i as int)[0] == g[i as int]);
        assert(g.skip(i as int).drop_first() =~= g.skip(i as int + 1));
        assert(out@ =~= old(out)@ + enc_entries(kw, *vt, g.skip(i as int)));
    }
}

/// Append the encodings of the set elements from index i on.
fn encode_keys(ew: Width, ks: &Vec<u64>, i: usize, out: &mut Vec<u8>)
    requires
        i <= ks@.len(),
    ensures
        final (out)@ == old(out)@ + enc_keys(ew, ks@.map_values(|k: u64| k as nat).skip(i as int)),
    decreases ks@.len() - i,
{
    let g = Ghost(ks@.map_values(|k: u64| k as nat));
    if i == ks.len() {
        proof {
            assert(g@.skip(i as int) =~= Seq::<nat>::empty());
            assert(out@ =~= old(out)@ + enc_keys(ew, g@.skip(i as int)));
        }
        return ;
    }
    write_le_bytes(width_bytes(ew), ks[i], out);
    encode_keys(ew, ks, i + 1, out);
    proof {
        assert(g@.skip(i as int)[0] == g@[i as int]);
        assert(g@.skip(i as int).drop_first() =~= g@.skip(i as int + 1));
        assert(out@ =~= old(out)@ + enc_keys(ew, g@.skip(i as int)));
    }
}

/// Splitting a non-empty entry sequence commutes with taking its shadow.
proof fn lemma_view_entries_drop_last(s: Seq<(u64, Val)>)
    requires
        s.len() > 0,
    ensures
        view_entries(s.drop_last()) =~= view_entries(s).drop_last(),
    decreases s.len(),
{
    lemma_view_entries_len(s);
    if s.len() > 1 {
        lemma_view_entries_drop_last(s.drop_first());
        lemma_view_entries_len(s.drop_first());
        assert(s.drop_last().drop_first() =~= s.drop_first().drop_last());
        assert(view_entries(s.drop_last()) == seq![(s[0].0 as nat, view_val(s[0].1))]
            + view_entries(s.drop_last().drop_first()));
    }
}

/// Insert one entry into a key-sorted vector, mirroring `map_insert_s`.
fn map_insert_rec(es: Vec<(u64, Val)>, k: u64, v: Val) -> (r: Vec<(u64, Val)>)
    ensures
        view_entries(r@) == map_insert_s(view_entries(es@), k as nat, view_val(v)),
    decreases es@.len(),
{
    let ghost orig = es@;
    let mut es = es;
    if es.len() == 0 {
        let mut r: Vec<(u64, Val)> = Vec::new();
        r.push((k, v));
        proof {
            assert(r@ =~= seq![(k, v)]);
            assert(r@.drop_first() =~= Seq::<(u64, Val)>::empty());
            assert(r@[0].0 == k && r@[0].1 == v);
            assert(view_entries(r@) == seq![(r@[0].0 as nat, view_val(r@[0].1))] + view_entries(
                r@.drop_first(),
            ));
            assert(view_entries(orig).len() == 0);
            assert(map_insert_s(view_entries(orig), k as nat, view_val(v)) == seq![
                (k as nat, view_val(v)),
            ]);
            assert(view_entries(r@) =~= map_insert_s(view_entries(orig), k as nat, view_val(v)));
        }
        r
    } else if k < es[0].0 {
        es.insert(0, (k, v));
        proof {
            assert(es@ =~= seq![(k, v)] + orig);
            assert(es@.drop_first() =~= orig);
            assert(view_entries(es@) =~= map_insert_s(view_entries(orig), k as nat, view_val(v)));
        }
        es
    } else if k == es[0].0 {
        es.remove(0);
        es.insert(0, (k, v));
        proof {
            lemma_view_entries_index(orig, 0);
            assert(es@ =~= seq![(k, v)] + orig.drop_first());
            assert(es@.drop_first() =~= orig.drop_first());
            assert(view_entries(orig).drop_first() =~= view_entries(orig.drop_first()));
            assert(view_entries(es@) =~= seq![(k as nat, view_val(v))] + view_entries(
                orig.drop_first(),
            ));
            assert(map_insert_s(view_entries(orig), k as nat, view_val(v)) == seq![
                (k as nat, view_val(v)),
            ] + view_entries(orig).drop_first());
            assert(view_entries(es@) =~= map_insert_s(view_entries(orig), k as nat, view_val(v)));
        }
        es
    } else {
        let head = es.remove(0);
        proof {
            assert(es@ =~= orig.drop_first());
        }
        let mut rest = map_insert_rec(es, k, v);
        let ghost rb = rest@;
        rest.insert(0, head);
        proof {
            lemma_view_entries_index(orig, 0);
            assert(view_entries(orig).drop_first() =~= view_entries(orig.drop_first()));
            assert(rest@ =~= seq![head] + rb);
            assert(rest@.drop_first() =~= rb);
            assert(view_entries(rest@) =~= map_insert_s(
                view_entries(orig),
                k as nat,
                view_val(v),
            ));
        }
        rest
    }
}

/// Encode a value under a plan into a fresh buffer.
///
/// Succeeds exactly on well-formed values: an oversized count (more elements
/// than the configured width can number), an oversized scalar or key, keys
/// out of ascending order, or a value of the wrong form are refused rather
/// than truncated.
pub fn encode_ty(t: &Ty, v: &Val) -> (r: Result<Vec<u8>, EncodeError>)
    ensures
        r is Ok <==> wf_val(*t, view_val(*v)),
        r matches Ok(b) ==> b@ == enc(*t, view_val(*v)),
{
    if check_val(t, v) {
        let mut out: Vec<u8> = Vec::new();
        encode_val(t, v, &mut out);
        proof {
            assert(out@ =~= enc(*t, view_val(*v)));
        }
        Ok(out)
    } else {
        Err(EncodeError::NotEncodable)
    }
}

/// Resolve read-order entries into the sorted map they build, last write
/// winning, mirroring `build_map`.
fn build_map_exec(read: Vec<(u64, Val)>) -> (r: Vec<(u64, Val)>)
    ensures
        view_entries(r@) == build_map(view_entries(read@)),
    decreases read@.len(),
{
    let ghost orig = read@;
    let mut read = read;
    match read.pop() {
        None => {
            let r: Vec<(u64, Val)> = Vec::new();
            proof {
                assert(view_entries(r@) =~= build_map(view_entries(orig)));
            }
            r
        },
        Some(last) => {
            proof {
                assert(read@ =~= orig.drop_last());
                lemma_view_entries_drop_last(orig);
                lemma_view_entries_index(orig, orig.len() - 1);
            }
            let acc = build_map_exec(read);
            let r = map_insert_rec(acc, last.0, last.1);
            proof {
                assert(view_entries(orig).last() == (last.0 as nat, view_val(last.1)));
                assert(view_entries(r@) == build_map(view_entries(orig)));
            }
            r
        },
    }
}

/// Insert one element into a sorted vector, mirroring `set_insert_s`.
fn set_insert_rec(ks: Vec<u64>, k: u64) -> (r: Vec<u64>)
    ensures
        r@.map_values(|x: u64| x as nat) == set_insert_s(
            ks@.map_values(|x: u64| x as nat),
            k as nat,
        ),
    decreases ks@.len(),
{
    let ghost orig = ks@;
    let ghost om = ks@.map_values(|x: u64| x as nat);
    let mut ks = ks;
    if ks.len() == 0 {
        let mut r: Vec<u64> = Vec::new();
        r.push(k);
        proof {
            assert(r@.map_values(|x: u64| x as nat) =~= set_insert_s(om, k as nat));
        }
        r
    } else if k < ks[0] {
        ks.insert(0, k);
        proof {
            assert(ks@ =~= seq![k] + orig);
            assert(ks@.map_values(|x: u64| x as nat) =~= set_insert_s(om, k as nat));
        }
        ks
    } else if k == ks[0] {
        proof {
            assert(om[0] == orig[0] as nat);
            assert(ks@.map_values(|x: u64| x as nat) =~= set_insert_s(om, k as nat));
        }
        ks
    } else {
        let head = ks.remove(0);
        proof {
            assert(ks@ =~= orig.drop_first());
            assert(ks@.map_values(|x: u64| x as nat) =~= om.drop_first());
        }
        let mut rest = set_insert_rec(ks, k);
        let ghost rb = rest@;
        rest.insert(0, head);
        proof {
            assert(rest@ =~= seq![head] + rb);
            assert(rest@.map_values(|x: u64| x as nat) =~= set_insert_s(om, k as nat));
        }
        rest
    }
}

/// Resolve read-order elements into the sorted set they build, mirroring
/// `build_set`.
fn build_set_exec(read: Vec<u64>) -> (r: Vec<u64>)
    ensures
        r@.map_values(|x: u64| x as nat) == build_set(read@.map_values(|x: u64| x as nat)),
    decreases read@.len(),
{
    let ghost orig = read@;
    let ghost om = read@.map_values(|x: u64| x as nat);
    let mut read = read;
    match read.pop() {
        None => {
            let r: Vec<u64> = Vec::new();
            proof {
                assert(r@.map_values(|x: u64| x as nat) =~= build_set(om));
            }
            r
        },
        Some(last) => {
            proof {
                assert(read@ =~= orig.drop_last());
                assert(read@.map_values(|x: u64| x as nat) =~= om.drop_last());
                assert(om.last() == last as nat);
            }
            let acc = build_set_exec(read);
            let r = set_insert_rec(acc, last);
            proof {
                assert(r@.map_values(|x: u64| x as nat) == build_set(om));
            }
            r
        },
    }
}

/// Decode one value under a plan at a position.
///
/// Fails exactly where the mathematical decoder yields nothing: on input
/// that ends before the value does, and on keys out of strictly increasing
/// order where the plan insists on them. Without that insistence any key
/// order is accepted and resolves by the container's own semantics.
#[verifier::rlimit(80)]
pub fn decode_ty(t: &Ty, input: &Vec<u8>, pos: usize) -> (r: Result<(Val, usize), FormatError>)
    ensures
        match r {
            Ok(vp) => dec(*t, input@, pos as nat) == Some((view_val(vp.0), vp.1 as nat)) && vp.1
                <= input@.len(),
            Err(_) => dec(*t, input@, pos as nat) is None,
        },
    decreases t, 0nat,
{
    match t {
        Ty::Scalar(w) => match read_le_bytes(width_bytes(*w), input, pos) {
            None => Err(FormatError::TruncatedInput),
            Some((n, p)) => Ok((Val::Num(n), p)),
        },
        Ty::ListOf(w, et) => match read_le_bytes(width_bytes(*w), input, pos) {
            None => Err(FormatError::TruncatedInput),
            Some((n, p)) => match decode_items(et, input, p, n) {
                Err(e) => Err(e),
                Ok((vs, p2)) => Ok((Val::Items(vs), p2)),
            },
        },
        Ty::MapOf { count, ensure_ordered, key, value } => match read_le_bytes(
            width_bytes(*count),
            input,
            pos,
        ) {
            None => Err(FormatError::TruncatedInput),
            Some((n, p)) => match decode_entries_raw(*key, value, input, p, n) {
                Err(e) => Err(e),
                Ok((es_raw, p2)) => {
                    if *ensure_ordered && !entries_ascending(&es_raw) {
                        return Err(FormatError::KeysOutOfOrder);
                    }
                    let sorted = build_map_exec(es_raw);
                    Ok((Val::Entries(sorted), p2))
                },
            },
        },
        Ty::SetOf { count, ensure_ordered, elem } => match read_le_bytes(
            width_bytes(*count),
            input,
            pos,
        ) {
            None => Err(FormatError::TruncatedInput),
            Some((n, p)) => match decode_keys_raw(*elem, input, p, n) {
                Err(e) => Err(e),
                Ok((ks_raw, p2)) => {
                    if *ensure_ordered && !keys_ascending(&ks_raw) {
                        return Err(FormatError::KeysOutOfOrder);
                    }
                    let sorted = build_set_exec(ks_raw);
                    Ok((Val::Keys(sorted), p2))
                },
            },
        },
        Ty::Utf8(w) => match read_le_bytes(width_bytes(*w), input, pos) {
            None => Err(FormatError::TruncatedInput),
            Some((n, p)) => {
                let remaining = input.len() - p;
                if n > remaining as u64 {
                    return Err(FormatError::TruncatedInput);
                }
                let nu = n as usize;
                let mut bs: Vec<u8> = Vec::new();
                let mut i: usize = 0;
                while i < nu
                    invariant
                        p + nu <= input@.len(),
                        p + nu <= usize::MAX,
                        i <= nu,
                        bs@ =~= input@.subrange(p as int, p as int + i as int),
                    decreases nu - i,
                {
                    bs.push(input[p + i]);
                    proof {
                        assert(bs@ =~= input@.subrange(p as int, p as int + i as int + 1));
                    }
                    i += 1;
                }
                Ok((Val::Text(bs), p + nu))
            },
        },
    }
}

/// Decode n sequence elements in a row.
fn decode_items(et: &Ty, input: &Vec<u8>, pos: usize, n: u64) -> (r: Result<
    (Vec<Val>, usize),
    FormatError,
>)
    requires
        pos <= input@.len(),
    ensures
        match r {
            Ok(vp) => dec_items(*et, input@, pos as nat, n as nat) == Some(
                (view_vals(vp.0@), vp.1 as nat),
            ) && vp.1 <= input@.len(),
            Err(_) => dec_items(*et, input@, pos as nat, n as nat) is None,
        },
    decreases et, n + 1,
{
    if n == 0 {
        let vs: Vec<Val> = Vec::new();
        proof {
            assert(view_vals(vs@) =~= Seq::<GVal>::empty());
        }
        return Ok((vs, pos));
    }
    let (v, p) = match decode_ty(et, input, pos) {
        Ok(vp) => vp,
        Err(e) => {
            return Err(e);
        },
    };
    let (mut vs, p2) = match decode_items(et, input, p, n - 1) {
        Ok(vp) => vp,
        Err(e) => {
            return Err(e);
        },
    };
    let ghost tail = vs@;
    vs.insert(0, v);
    proof {
        assert(vs@ =~= seq![v] + tail);
        assert(vs@.drop_first() =~= tail);
        assert(view_vals(vs@) =~= seq![view_val(v)] + view_vals(tail));
    }
    Ok((vs, p2))
}

/// Decode n map entries in a row, in read order.
fn decode_entries_raw(kw: Width, vt: &Ty, input: &Vec<u8>, pos: usize, n: u64) -> (r: Result<
    (Vec<(u64, Val)>, usize),
    FormatError,
>)
    requires
        pos <= input@.len(),
    ensures
        match r {
            Ok(vp) => dec_entries_raw(kw, *vt, input@, pos as nat, n as nat) == Some(
                (view_entries(vp.0@), vp.1 as nat),
            ) && vp.1 <= input@.len(),
            Err(_) => dec_entries_raw(kw, *vt, input@, pos as nat, n as nat) is None,
        },
    decreases vt, n + 1,
{
    if n == 0 {
        let es: Vec<(u64, Val)> = Vec::new();
        proof {
            assert(view_entries(es@) =~= Seq::<(nat, GVal)>::empty());
        }
        return Ok((es, pos));
    }
    let (k, p) = match read_le_bytes(width_bytes(kw), input, pos) {
        Some(vp) => vp,
        None => {
            return Err(FormatError::TruncatedInput);
        },
    };
    let (v, p2) = match decode_ty(vt, input, p) {
        Ok(vp) => vp,
        Err(e) => {
            return Err(e);
        },
    };
    let (mut es, p3) = match decode_entries_raw(kw, vt, input, p2, n - 1) {
        Ok(vp) => vp,
        Err(e) => {
            return Err(e);
        },
    };
    let ghost tail = es@;
    es.insert(0, (k, v));
    proof {
        assert(es@ =~= seq![(k, v)] + tail);
        assert(es@.drop_first() =~= tail);
        assert(view_entries(es@) =~= seq![(k as nat, view_val(v))] + view_entries(tail));
    }
    Ok((es, p3))
}

/// Decode n set elements in a row, in read order.
fn decode_keys_raw(ew: Width, input: &Vec<u8>, pos: usize, n: u64) -> (r: Result<
    (Vec<u64>, usize),
    FormatError,
>)
    requires
        pos <= input@.len(),
    ensures
        match r {
            Ok(vp) => dec_keys_raw(ew, input@, pos as nat, n as nat) == Some(
                (vp.0@.map_values(|x: u64| x as nat), vp.1 as nat),
            ) && vp.1 <= input@.len(),
            Err(_) => dec_keys_raw(ew, input@, pos as nat, n as nat) is None,
        },
    decreases n,
{
    if n == 0 {
        let ks: Vec<u64> = Vec::new();
        proof {
            assert(ks@.map_values(|x: u64| x as nat) =~= Seq::<nat>::empty());
        }
        return Ok((ks, pos));
    }
    let (k, p) = match read_le_bytes(width_bytes(ew), input, pos) {
        Some(vp) => vp,
        None => {
            return Err(FormatError::TruncatedInput);
        },
    };
    let (mut ks, p2) = match decode_keys_raw(ew, input, p, n - 1) {
        Ok(vp) => vp,
        Err(e) => {
            return Err(e);
        },
    };
    let ghost tail = ks@;
    ks.insert(0, k);
    proof {
        assert(ks@ =~= seq![k] + tail);
        assert(ks@.map_values(|x: u64| x as nat) =~= seq![k as nat] + tail.map_values(
            |x: u64| x as nat,
        ));
    }
    Ok((ks, p2))
}

} // verus!
