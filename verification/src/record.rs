//! The textual format of the match log, and its parser.
//!
//! Every discovered key is appended to the log as one block of five lines:
//! the secret scalar as lowercase hex, the wallet-import-format key, the
//! public key text, the matched address, and a blank separator line. The
//! format and the parser are both verified against the same spec-level
//! functions, and parsing is proved to invert formatting, record by
//! record, also for several batches appended one after another.

use crate::hex::{
    from_hex, hex_seq, is_hex_digit, lemma_hex_seq_valid, lemma_unhex_hex, to_hex, unhex, valid_hex,
};
use crate::keys::{KeyMaterial, KeyMaterialView};
use vstd::prelude::*;

verus! {

/// The views of a sequence of key materials.
pub open spec fn views_of(b: Seq<KeyMaterial>) -> Seq<KeyMaterialView> {
    b.map_values(|k: KeyMaterial| k@)
}

/// The log block of one record: four text lines and a blank line.
pub open spec fn record_bytes(k: KeyMaterialView) -> Seq<u8> {
    hex_seq(k.secret) + seq![10u8] + k.wif + seq![10u8] + k.pubkey + seq![10u8] + k.address
        + seq![10u8, 10u8]
}

/// The log text of a whole batch: its records, in order.
pub open spec fn log_bytes(b: Seq<KeyMaterialView>) -> Seq<u8>
    decreases b.len(),
{
    if b.len() == 0 {
        Seq::empty()
    } else {
        record_bytes(b[0]) + log_bytes(b.skip(1))
    }
}

/// The position of the first newline of `s`, if any.
pub open spec fn first_nl(s: Seq<u8>) -> Option<int>
    decreases s.len(),
{
    if s.len() == 0 {
        None
    } else if s[0] == 10 {
        Some(0)
    } else {
        match first_nl(s.skip(1)) {
            None => None,
            Some(i) => Some(i + 1),
        }
    }
}

/// Split off the first line of `s` at its first newline.
pub open spec fn split_line(s: Seq<u8>) -> Option<(Seq<u8>, Seq<u8>)> {
    match first_nl(s) {
        None => None,
        Some(i) => Some((s.take(i), s.skip(i + 1))),
    }
}

/// Parse one record block off the front of `s`.
pub open spec fn parse_record(s: Seq<u8>) -> Option<(KeyMaterialView, Seq<u8>)> {
    match split_line(s) {
        None => None,
        Some((l1, s1)) => match split_line(s1) {
            None => None,
            Some((l2, s2)) => match split_line(s2) {
                None => None,
                Some((l3, s3)) => match split_line(s3) {
                    None => None,
                    Some((l4, s4)) => match split_line(s4) {
                        None => None,
                        Some((l5, s5)) => if l5.len() == 0 && l1.len() == 64 && valid_hex(l1)
                            && l2.len() > 0 && l3.len() > 0 && l4.len() > 0 {
                            Some(
                                (
                                    KeyMaterialView {
                                        secret: unhex(l1),
                                        wif: l2,
                                        pubkey: l3,
                                        address: l4,
                                    },
                                    s5,
                                ),
                            )
                        } else {
                            None
                        },
                    },
                },
            },
        },
    }
}

/// Parse a whole log: a sequence of record blocks and nothing else.
pub open spec fn parse_log_spec(s: Seq<u8>) -> Option<Seq<KeyMaterialView>>
    decreases s.len(),
{
    if s.len() == 0 {
        Some(Seq::empty())
    } else {
        match parse_record(s) {
            None => None,
            Some((k, rest)) => if rest.len() < s.len() {
                match parse_log_spec(rest) {
                    None => None,
                    Some(t) => Some(seq![k] + t),
                }
            } else {
                None
            },
        }
    }
}

/// If the first newline of `s` stands at `i`, `first_nl` says so.
proof fn lemma_first_nl_is(s: Seq<u8>, i: int)
    requires
        0 <= i < s.len(),
        s[i] == 10,
        forall|j: int| 0 <= j < i ==> s[j] != 10,
    ensures
        first_nl(s) == Some(i),
    decreases i,
{
    if i > 0 {
        let t = s.skip(1);
        assert(t[i - 1] == 10);
        assert forall|j: int| 0 <= j < i - 1 implies t[j] != 10 by {
            assert(t[j] == s[j + 1]);
        }
        lemma_first_nl_is(t, i - 1);
    }
}

/// A string without newlines has no first newline.
proof fn lemma_first_nl_none(s: Seq<u8>)
    requires
        forall|j: int| 0 <= j < s.len() ==> s[j] != 10,
    ensures
        first_nl(s) is None,
    decreases s.len(),
{
    if s.len() > 0 {
        let t = s.skip(1);
        assert forall|j: int| 0 <= j < t.len() implies t[j] != 10 by {
            assert(t[j] == s[j + 1]);
        }
        lemma_first_nl_none(t);
    }
}

/// Splitting the suffix of `v` at `pos`, when the first newline at or
/// after `pos` stands at `j`.
proof fn lemma_split_at(v: Seq<u8>, pos: int, j: int)
    requires
        0 <= pos <= j < v.len(),
        v[j] == 10,
        forall|t: int| pos <= t < j ==> v[t] != 10,
    ensures
        split_line(v.skip(pos)) == Some((v.subrange(pos, j), v.skip(j + 1))),
{
    let s = v.skip(pos);
    assert(s[j - pos] == 10);
    assert forall|u: int| 0 <= u < j - pos implies s[u] != 10 by {
        assert(s[u] == v[u + pos]);
    }
    lemma_first_nl_is(s, j - pos);
    assert(s.take(j - pos) =~= v.subrange(pos, j));
    assert(s.skip(j - pos + 1) =~= v.skip(j + 1));
}

/// Splitting the suffix of `v` at `pos` fails when no newline follows.
proof fn lemma_split_none(v: Seq<u8>, pos: int)
    requires
        0 <= pos <= v.len(),
        forall|t: int| pos <= t < v.len() ==> v[t] != 10,
    ensures
        split_line(v.skip(pos)) is None,
{
    let s = v.skip(pos);
    assert forall|u: int| 0 <= u < s.len() implies s[u] != 10 by {
        assert(s[u] == v[u + pos]);
    }
    lemma_first_nl_none(s);
}

/// Splitting a newline-terminated line off a concatenation.
proof fn lemma_split_front(a: Seq<u8>, rest: Seq<u8>)
    requires
        forall|j: int| 0 <= j < a.len() ==> a[j] != 10,
    ensures
        split_line(a + seq![10u8] + rest) == Some((a, rest)),
{
    let s = a + seq![10u8] + rest;
    assert(s[a.len() as int] == 10);
    assert forall|j: int| 0 <= j < a.len() implies s[j] != 10 by {
        assert(s[j] == a[j]);
    }
    lemma_first_nl_is(s, a.len() as int);
    assert(s.take(a.len() as int) =~= a);
    assert(s.skip(a.len() as int + 1) =~= rest);
}

/// Parsing one record off the front of any continuation recovers it.
proof fn lemma_parse_record_front(k: KeyMaterialView, rest: Seq<u8>)
    requires
        k.wf(),
    ensures
        parse_record(record_bytes(k) + rest) == Some((k, rest)),
{
    let h = hex_seq(k.secret);
    lemma_hex_seq_valid(k.secret);
    lemma_unhex_hex(k.secret);
    let r4: Seq<u8> = seq![10u8] + rest;
    let r3 = k.address + seq![10u8] + r4;
    let r2 = k.pubkey + seq![10u8] + r3;
    let r1 = k.wif + seq![10u8] + r2;
    let s = record_bytes(k) + rest;
    assert(s =~= h + seq![10u8] + r1);
    assert forall|j: int| 0 <= j < h.len() implies h[j] != 10 by {
        assert(is_hex_digit(h[j]));
    }
    lemma_split_front(h, r1);
    lemma_split_front(k.wif, r2);
    lemma_split_front(k.pubkey, r3);
    lemma_split_front(k.address, r4);
    assert(r4 =~= Seq::<u8>::empty() + seq![10u8] + rest);
    lemma_split_front(Seq::<u8>::empty(), rest);
    assert(parse_record(s) == Some(
        (KeyMaterialView { secret: unhex(h), wif: k.wif, pubkey: k.pubkey, address: k.address },
        rest),
    ));
    assert(KeyMaterialView {
        secret: unhex(h),
        wif: k.wif,
        pubkey: k.pubkey,
        address: k.address,
    } =~= k);
}

/// Round trip: parsing the log text of a batch of well-formed records
/// recovers exactly those records, in order.
pub proof fn lemma_log_round_trip(b: Seq<KeyMaterialView>)
    requires
        forall|i: int| 0 <= i < b.len() ==> (#[trigger] b[i]).wf(),
    ensures
        parse_log_spec(log_bytes(b)) == Some(b),
    decreases b.len(),
{
    if b.len() == 0 {
        assert(log_bytes(b) =~= Seq::<u8>::empty());
        assert(b =~= Seq::<KeyMaterialView>::empty());
    } else {
        let k = b[0];
        let t = b.skip(1);
        assert forall|i: int| 0 <= i < t.len() implies (#[trigger] t[i]).wf() by {
            assert(t[i] == b[i + 1]);
        }
        lemma_log_round_trip(t);
        lemma_parse_record_front(k, log_bytes(t));
        let s = log_bytes(b);
        assert(s == record_bytes(k) + log_bytes(t));
        lemma_hex_seq_valid(k.secret);
        assert(record_bytes(k).len() > 0);
        assert(s.len() > 0);
        assert(log_bytes(t).len() < s.len());
        assert(seq![k] + t =~= b);
    }
}

/// Appending the log text of a second batch after a first is the log text
/// of the two batches in order: whole-block appends never interleave.
pub proof fn lemma_log_append(b1: Seq<KeyMaterialView>, b2: Seq<KeyMaterialView>)
    ensures
        log_bytes(b1) + log_bytes(b2) == log_bytes(b1 + b2),
    decreases b1.len(),
{
    if b1.len() == 0 {
        assert(b1 + b2 =~= b2);
        assert(log_bytes(b1) + log_bytes(b2) =~= log_bytes(b2));
    } else {
        lemma_log_append(b1.skip(1), b2);
        assert((b1 + b2).skip(1) =~= b1.skip(1) + b2);
        assert((b1 + b2)[0] == b1[0]);
        assert((b1 + b2).len() > 0);
        assert(log_bytes(b1) + log_bytes(b2) =~= record_bytes(b1[0]) + (log_bytes(b1.skip(1))
            + log_bytes(b2)));
        assert(log_bytes(b1 + b2) == record_bytes(b1[0]) + log_bytes((b1 + b2).skip(1)));
    }
}

/// The log text after a sequence of whole-batch appends, in the order the
/// writer lock granted them.
pub open spec fn logs_of(batches: Seq<Seq<KeyMaterialView>>) -> Seq<u8>
    decreases batches.len(),
{
    if batches.len() == 0 {
        Seq::empty()
    } else {
        log_bytes(batches[0]) + logs_of(batches.skip(1))
    }
}

/// Appending whole batches one after another writes the log of all their
/// records in order.
proof fn lemma_logs_of_flatten(batches: Seq<Seq<KeyMaterialView>>)
    ensures
        logs_of(batches) == log_bytes(batches.flatten()),
    decreases batches.len(),
{
    if batches.len() == 0 {
        assert(logs_of(batches) =~= log_bytes(batches.flatten()));
    } else {
        let rest = batches.skip(1);
        lemma_logs_of_flatten(rest);
        assert(batches.drop_first() =~= rest);
        lemma_log_append(batches[0], rest.flatten());
        assert(batches.flatten() == batches[0] + rest.flatten());
    }
}

/// Every record of flattened batches of well-formed records is well formed.
proof fn lemma_flatten_wf(batches: Seq<Seq<KeyMaterialView>>)
    requires
        forall|i: int, j: int|
            0 <= i < batches.len() && 0 <= j < batches[i].len() ==> (#[trigger] batches[i][j]).wf(),
    ensures
        forall|i: int|
            0 <= i < batches.flatten().len() ==> (#[trigger] batches.flatten()[i]).wf(),
    decreases batches.len(),
{
    if batches.len() > 0 {
        let rest = batches.skip(1);
        assert forall|i: int, j: int|
            0 <= i < rest.len() && 0 <= j < rest[i].len() implies (#[trigger] rest[i][j]).wf() by {
            assert(rest[i] == batches[i + 1]);
        }
        lemma_flatten_wf(rest);
        assert(batches.drop_first() =~= rest);
        let head = batches[0];
        let flat = batches.flatten();
        assert forall|i: int| 0 <= i < flat.len() implies (#[trigger] flat[i]).wf() by {
            assert(flat == head + rest.flatten());
            if i < head.len() {
                assert(flat[i] == batches[0][i]);
            } else {
                assert(flat[i] == rest.flatten()[i - head.len()]);
            }
        }
    }
}

/// Any number of batches of well-formed records, each appended whole
/// under the writer's mutual exclusion, parse back as exactly all their
/// records in append order: a reader of the log sees no interleaved or
/// partial record.
pub proof fn lemma_appended_batches_round_trip(batches: Seq<Seq<KeyMaterialView>>)
    requires
        forall|i: int, j: int|
            0 <= i < batches.len() && 0 <= j < batches[i].len() ==> (#[trigger] batches[i][j]).wf(),
    ensures
        parse_log_spec(logs_of(batches)) == Some(batches.flatten()),
{
    lemma_logs_of_flatten(batches);
    lemma_flatten_wf(batches);
    lemma_log_round_trip(batches.flatten());
}

/// Append a copy of `src` to `dst`.
fn push_all(dst: &mut Vec<u8>, src: &Vec<u8>)
    ensures
        final (dst)@ == old(dst)@ + src@,
{
    let mut i: usize = 0;
    while i < src.len()
        invariant
            i <= src.len(),
            dst@ == old(dst)@ + src@.take(i as int),
        decreases src.len() - i,
    {
        dst.push(src[i]);
        proof {
            assert(old(dst)@ + src@.take(i as int + 1) =~= (old(dst)@ + src@.take(i as int)).push(
                src@[i as int],
            ));
        }
        i = i + 1;
    }
    proof {
        assert(src@.take(src@.len() as int) =~= src@);
        assert(dst@ =~= old(dst)@ + src@);
    }
}

/// Format one record as its log block.
pub fn format_record(km: &KeyMaterial) -> (r: Vec<u8>)
    ensures
        r@ == record_bytes(km@),
{
    let mut out = to_hex(&km.secret);
    out.push(10);
    push_all(&mut out, &km.wif);
    out.push(10);
    push_all(&mut out, &km.pubkey);
    out.push(10);
    push_all(&mut out, &km.address);
    out.push(10);
    out.push(10);
    proof {
        assert(out@ =~= record_bytes(km@));
    }
    out
}

/// Format a whole batch as the concatenation of its records' log blocks.
pub fn format_batch(batch: &Vec<KeyMaterial>) -> (r: Vec<u8>)
    ensures
        r@ == log_bytes(views_of(batch@)),
{
    let ghost vs = views_of(batch@);
    let mut out: Vec<u8> = Vec::new();
    let mut i: usize = 0;
    proof {
        assert(vs.skip(0) =~= vs);
    }
    while i < batch.len()
        invariant
            i <= batch.len(),
            vs == views_of(batch@),
            out@ + log_bytes(vs.skip(i as int)) == log_bytes(vs),
        decreases batch.len() - i,
    {
        let rec = format_record(&batch[i]);
        push_all(&mut out, &rec);
        proof {
            let t = vs.skip(i as int);
            assert(t[0] == batch@[i as int]@);
            assert(t.skip(1) =~= vs.skip(i as int + 1));
            assert(out@ + log_bytes(vs.skip(i as int + 1)) =~= log_bytes(vs));
        }
        i = i + 1;
    }
    proof {
        assert(vs.skip(vs.len() as int) =~= Seq::<KeyMaterialView>::empty());
        assert(out@ =~= log_bytes(vs));
    }
    out
}

/// The first newline of `v` at or after `from`, if any.
fn find_nl(v: &Vec<u8>, from: usize) -> (r: Option<usize>)
    requires
        from <= v@.len(),
    ensures
        r matches Some(j) ==> from <= j < v@.len() && v@[j as int] == 10 && (forall|t: int|
            from <= t < j ==> v@[t] != 10),
        r is None ==> forall|t: int| from <= t < v@.len() ==> v@[t] != 10,
{
    let mut i: usize = from;
    while i < v.len()
        invariant
            from <= i <= v@.len(),
            forall|t: int| from <= t < i ==> v@[t] != 10,
        decreases v.len() - i,
    {
        if v[i] == 10 {
            return Some(i);
        }
        i = i + 1;
    }
    None
}

/// Copy the bytes of `v` between `from` and `to`.
fn sub_bytes(v: &Vec<u8>, from: usize, to: usize) -> (r: Vec<u8>)
    requires
        from <= to <= v@.len(),
    ensures
        r@ == v@.subrange(from as int, to as int),
{
    let mut r: Vec<u8> = Vec::new();
    let mut i: usize = from;
    while i < to
        invariant
            from <= i <= to <= v@.len(),
            r@ == v@.subrange(from as int, i as int),
        decreases to - i,
    {
        r.push(v[i]);
        proof {
            assert(v@.subrange(from as int, i as int + 1) =~= v@.subrange(
                from as int,
                i as int,
            ).push(v@[i as int]));
        }
        i = i + 1;
    }
    r
}

/// Parse one record block of `v` starting at `pos`.
fn parse_record_at(v: &Vec<u8>, pos: usize) -> (r: Option<(KeyMaterial, usize)>)
    requires
        pos <= v@.len(),
    ensures
        ({
            let s = v@.skip(pos as int);
            match r {
                Some((km, p)) => pos < p <= v@.len() && parse_record(s) == Some(
                    (km@, v@.skip(p as int)),
                ),
                None => parse_record(s) is None,
            }
        }),
{
    let ghost s = v@.skip(pos as int);
    let n = v.len();
    let e1 = match find_nl(v, pos) {
        Some(x) => x,
        None => {
            proof {
                lemma_split_none(v@, pos as int);
            }
            return None;
        },
    };
    proof {
        lemma_split_at(v@, pos as int, e1 as int);
    }
    let e2 = match find_nl(v, e1 + 1) {
        Some(x) => x,
        None => {
            proof {
                lemma_split_none(v@, e1 as int + 1);
            }
            return None;
        },
    };
    proof {
        lemma_split_at(v@, e1 as int + 1, e2 as int);
    }
    let e3 = match find_nl(v, e2 + 1) {
        Some(x) => x,
        None => {
            proof {
                lemma_split_none(v@, e2 as int + 1);
            }
            return None;
        },
    };
    proof {
        lemma_split_at(v@, e2 as int + 1, e3 as int);
    }
    let e4 = match find_nl(v, e3 + 1) {
        Some(x) => x,
        None => {
            proof {
                lemma_split_none(v@, e3 as int + 1);
            }
            return None;
        },
    };
    proof {
        lemma_split_at(v@, e3 as int + 1, e4 as int);
    }
    let e5 = match find_nl(v, e4 + 1) {
        Some(x) => x,
        None => {
            proof {
                lemma_split_none(v@, e4 as int + 1);
            }
            return None;
        },
    };
    proof {
        lemma_split_at(v@, e4 as int + 1, e5 as int);
    }
    let l1 = sub_bytes(v, pos, e1);
    let l2 = sub_bytes(v, e1 + 1, e2);
    let l3 = sub_bytes(v, e2 + 1, e3);
    let l4 = sub_bytes(v, e3 + 1, e4);
    if !(e5 == e4 + 1 && l1.len() == 64 && l2.len() > 0 && l3.len() > 0 && l4.len() > 0) {
        proof {
            assert(v@.subrange(e4 as int + 1, e5 as int).len() == e5 - (e4 + 1));
        }
        return None;
    }
    let secret = match from_hex(&l1) {
        Some(x) => x,
        None => {
            return None;
        },
    };
    proof {
        assert(v@.subrange(e4 as int + 1, e5 as int) =~= Seq::<u8>::empty());
    }
    Some((KeyMaterial { secret, wif: l2, pubkey: l3, address: l4 }, e5 + 1))
}

/// Parse a whole log back into its records; `None` exactly on text that
/// is not a sequence of record blocks.
pub fn parse_log(v: &Vec<u8>) -> (r: Option<Vec<KeyMaterial>>)
    ensures
        r matches Some(b) ==> parse_log_spec(v@) == Some(views_of(b@)),
        r is None ==> parse_log_spec(v@) is None,
{
    proof {
        assert(v@.skip(0) =~= v@);
    }
    parse_from(v, 0)
}

/// Parse the suffix of `v` starting at `pos` as a sequence of records.
fn parse_from(v: &Vec<u8>, pos: usize) -> (r: Option<Vec<KeyMaterial>>)
    requires
        pos <= v@.len(),
    ensures
        ({
            let s = v@.skip(pos as int);
            match r {
                Some(b) => parse_log_spec(s) == Some(views_of(b@)),
                None => parse_log_spec(s) is None,
            }
        }),
    decreases v@.len() - pos,
{
    let ghost s = v@.skip(pos as int);
    if pos == v.len() {
        proof {
            assert(s =~= Seq::<u8>::empty());
            assert(views_of(Seq::<KeyMaterial>::empty()) =~= Seq::<KeyMaterialView>::empty());
        }
        return Some(Vec::new());
    }
    let (km, p) = match parse_record_at(v, pos) {
        Some(x) => x,
        None => {
            return None;
        },
    };
    proof {
        assert(v@.skip(p as int).len() < s.len());
    }
    let rest = match parse_from(v, p) {
        Some(x) => x,
        None => {
            return None;
        },
    };
    let ghost rv = rest@;
    let mut out = rest;
    out.insert(0, km);
    proof {
        assert(out@ =~= seq![km] + rv);
        assert(views_of(out@) =~= seq![km@] + views_of(rv));
    }
    Some(out)
}

} // verus!
