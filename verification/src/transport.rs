use vstd::prelude::*;

use crate::rational::{lemma_digits_val_prefix_le, spec_digits_val};

use crate::envelope::{
    key_html, key_json, key_ld, key_ln, key_lower, key_subgraph, key_ud, key_un, key_upper,
    key_weight_range, spec_esc_byte, spec_escape, spec_hex_digit, spec_join_ids,
    spec_ser_envelope, spec_ser_subgraph, spec_ser_weight_range, spec_u64_dec, Envelope,
    WeightRangeEnc,
};

verus! {

/// Appending one digit to a number appends its digit byte to the rendering.
proof fn lemma_dec_append(v: nat, d: nat)
    requires
        v >= 1,
        d < 10,
    ensures
        spec_u64_dec(v * 10 + d) == spec_u64_dec(v) + seq![(48 + d) as u8],
{
    assert(v * 10 + d >= 10);
    assert((v * 10 + d) / 10 == v) by (nonlinear_arith)
        requires
            d < 10,
            v >= 1,
    ;
    assert((v * 10 + d) % 10 == d) by (nonlinear_arith)
        requires
            d < 10,
    ;
}

/// Every byte of a rendering is a decimal digit, the first is nonzero
/// unless the value is zero, and the rendering is never empty.
proof fn lemma_dec_shape(v: nat)
    ensures
        spec_u64_dec(v).len() >= 1,
        forall|i: int|
            0 <= i < spec_u64_dec(v).len() ==> 48 <= #[trigger] spec_u64_dec(v)[i] <= 57,
        v >= 1 ==> spec_u64_dec(v)[0] != 48,
    decreases v,
{
    if v >= 10 {
        lemma_dec_shape(v / 10);
        assert(spec_u64_dec(v) == spec_u64_dec(v / 10) + seq![(48 + v % 10) as u8]);
        assert(spec_u64_dec(v)[0] == spec_u64_dec(v / 10)[0]);
    }
}

/// The value a rendering denotes is the value it was rendered from.
proof fn lemma_val_of_dec(v: nat)
    ensures
        spec_digits_val(spec_u64_dec(v)) == v,
    decreases v,
{
    if v < 10 {
        assert(spec_u64_dec(v) == seq![(48 + v) as u8]);
        assert(spec_u64_dec(v).drop_last() =~= Seq::<u8>::empty());
        assert(spec_digits_val(Seq::<u8>::empty()) == 0);
        assert(spec_u64_dec(v).last() == (48 + v) as u8);
        assert((48 + v) as u8 == 48 + v);
        assert(spec_digits_val(spec_u64_dec(v)) == 0 * 10 + ((48 + v) - 48));
    } else {
        lemma_val_of_dec(v / 10);
        assert(spec_u64_dec(v) == spec_u64_dec(v / 10) + seq![(48 + v % 10) as u8]);
        assert(spec_u64_dec(v).drop_last() =~= spec_u64_dec(v / 10));
        assert(spec_u64_dec(v).last() == (48 + v % 10) as u8);
        assert(v % 10 < 10);
        assert((48 + v % 10) as u8 == 48 + v % 10);
        assert(spec_digits_val(spec_u64_dec(v)) == (v / 10) * 10 + v % 10);
        assert((v / 10) * 10 + v % 10 == v) by (nonlinear_arith)
            requires
                v >= 10,
        ;
    }
}

/// The rendering of a value stands at `pos` in `b`, delimited on the
/// right by the end of `b` or by a byte that is no digit.
pub open spec fn spec_dec_at(b: Seq<u8>, pos: int, v: u64) -> bool {
    &&& pos + spec_u64_dec(v as nat).len() <= b.len()
    &&& b.subrange(pos, pos + spec_u64_dec(v as nat).len()) == spec_u64_dec(v as nat)
    &&& (pos + spec_u64_dec(v as nat).len() == b.len() || !(48 <= b[pos + spec_u64_dec(
        v as nat,
    ).len()] <= 57))
}

/// Expect the exact bytes of `lit` at `pos`.
fn eat_lit(b: &Vec<u8>, pos: usize, lit: &Vec<u8>) -> (r: Option<usize>)
    requires
        pos <= b@.len(),
    ensures
        r matches Some(p) ==> p == pos + lit@.len() && p <= b@.len() && b@.subrange(
            pos as int,
            p as int,
        ) == lit@,
        (pos + lit@.len() <= b@.len() && b@.subrange(pos as int, pos + lit@.len()) == lit@) ==> r
            is Some,
{
    if b.len() - pos < lit.len() {
        return None;
    }
    let blen = b.len();
    let mut i: usize = 0;
    while i < lit.len()
        invariant
            pos + lit@.len() <= b@.len(),
            b@.len() == blen,
            i <= lit@.len(),
            forall|j: int| 0 <= j < i ==> b@[pos + j] == lit@[j],
        decreases lit@.len() - i,
    {
        if b[pos + i] != lit[i] {
            proof {
                if b@.subrange(pos as int, pos + lit@.len()) == lit@ {
                    assert(b@.subrange(pos as int, pos + lit@.len())[i as int] == b@[pos + i]);
                }
            }
            return None;
        }
        i = i + 1;
    }
    proof {
        assert(b@.subrange(pos as int, (pos + lit@.len()) as int) =~= lit@);
    }
    Some(pos + lit.len())
}

/// Copy the bytes of `b` between `from` and `to`.
fn copy_range(b: &Vec<u8>, from: usize, to: usize) -> (r: Vec<u8>)
    requires
        from <= to <= b@.len(),
    ensures
        r@ == b@.subrange(from as int, to as int),
{
    let mut out: Vec<u8> = Vec::new();
    let mut i: usize = from;
    while i < to
        invariant
            from <= i <= to <= b@.len(),
            out@ == b@.subrange(from as int, i as int),
        decreases to - i,
    {
        out.push(b[i]);
        assert(out@ =~= b@.subrange(from as int, i + 1 as int));
        i = i + 1;
    }
    out
}

/// Read one canonical decimal number: `0`, or digits without a leading
/// zero. The bytes consumed are exactly the rendering of the value.
fn parse_u64_canon(b: &Vec<u8>, pos: usize) -> (r: Option<(u64, usize)>)
    requires
        pos <= b@.len(),
    ensures
        r matches Some(vp) ==> pos < vp.1 <= b@.len() && b@.subrange(pos as int, vp.1 as int)
            == spec_u64_dec(vp.0 as nat),
        forall|v0: u64|
            #[trigger] spec_dec_at(b@, pos as int, v0) ==> (r matches Some(vp) && vp.0 == v0
                && vp.1 == pos + spec_u64_dec(v0 as nat).len()),
{
    if pos >= b.len() {
        proof {
            assert forall|v0: u64| spec_dec_at(b@, pos as int, v0) implies false by {
                lemma_dec_shape(v0 as nat);
            }
        }
        return None;
    }
    let b0 = b[pos];
    if b0 < 48 || b0 > 57 {
        proof {
            assert forall|v0: u64| spec_dec_at(b@, pos as int, v0) implies false by {
                lemma_dec_shape(v0 as nat);
                assert(b@.subrange(pos as int, pos + spec_u64_dec(v0 as nat).len())[0]
                    == b@[pos as int]);
            }
        }
        return None;
    }
    if b0 == 48 {
        proof {
            assert(b@.subrange(pos as int, pos + 1 as int) =~= seq![48u8]);
            assert forall|v0: u64| spec_dec_at(b@, pos as int, v0) implies v0 == 0
                && spec_u64_dec(v0 as nat).len() == 1 by {
                lemma_dec_shape(v0 as nat);
                assert(b@.subrange(pos as int, pos + spec_u64_dec(v0 as nat).len())[0]
                    == b@[pos as int]);
                assert(spec_u64_dec(v0 as nat)[0] == 48);
            }
        }
        return Some((0, pos + 1));
    }
    let mut v: u64 = (b0 - 48) as u64;
    let mut p: usize = pos + 1;
    proof {
        assert(b@.subrange(pos as int, p as int) =~= seq![b0]);
    }
    while p < b.len()
        invariant_except_break
            pos < p <= b@.len(),
            1 <= v,
            b@.subrange(pos as int, p as int) == spec_u64_dec(v as nat),
        ensures
            pos < p <= b@.len(),
            1 <= v,
            b@.subrange(pos as int, p as int) == spec_u64_dec(v as nat),
            p == b@.len() || !(48 <= b@[p as int] <= 57),
        decreases b@.len() - p,
    {
        let c = b[p];
        if c < 48 || c > 57 {
            break;
        }
        let d = (c - 48) as u64;
        if v > (u64::MAX - d) / 10 {
            proof {
                assert(v * 10 + d > u64::MAX) by (nonlinear_arith)
                    requires
                        d <= 9,
                        v > (u64::MAX - d) / 10,
                ;
                assert forall|v0: u64| spec_dec_at(b@, pos as int, v0) implies false by {
                    let dv = spec_u64_dec(v0 as nat);
                    let end = pos + dv.len();
                    lemma_dec_shape(v0 as nat);
                    lemma_dec_shape(v as nat);
                    // every byte before p, and the byte at p, is a digit,
                    // so the delimited rendering must reach past p
                    assert forall|j: int| pos <= j < p implies 48 <= #[trigger] b@[j] <= 57 by {
                        assert(b@.subrange(pos as int, p as int)[j - pos] == b@[j]);
                    }
                    if end <= p {
                        assert(48 <= b@[end as int] <= 57);
                        assert(false);
                    }
                    // the consumed digits plus c form a prefix of the rendering
                    let pre = b@.subrange(pos as int, p + 1 as int);
                    assert(pre =~= spec_u64_dec(v as nat) + seq![c]);
                    assert(pre.drop_last() =~= spec_u64_dec(v as nat));
                    lemma_val_of_dec(v as nat);
                    assert(spec_digits_val(pre) == v * 10 + d);
                    assert(pre =~= dv.subrange(0, p + 1 - pos));
                    lemma_digits_val_prefix_le(dv, p + 1 - pos);
                    lemma_val_of_dec(v0 as nat);
                    assert(spec_digits_val(pre) <= v0);
                }
            }
            return None;
        }
        proof {
            lemma_dec_append(v as nat, d as nat);
        }
        v = v * 10 + d;
        p = p + 1;
        proof {
            assert(b@.subrange(pos as int, p as int) =~= b@.subrange(pos as int, (p - 1) as int)
                + seq![c]);
        }
    }
    proof {
        assert forall|v0: u64| spec_dec_at(b@, pos as int, v0) implies v0 == v
            && spec_u64_dec(v0 as nat).len() == p - pos by {
            let dv = spec_u64_dec(v0 as nat);
            let end = pos + dv.len();
            lemma_dec_shape(v0 as nat);
            lemma_dec_shape(v as nat);
            assert forall|j: int| pos <= j < p implies 48 <= #[trigger] b@[j] <= 57 by {
                assert(b@.subrange(pos as int, p as int)[j - pos] == b@[j]);
            }
            if end > p {
                // the rendering would run across the non-digit at p
                assert(dv[p - pos] == b@.subrange(pos as int, end as int)[p - pos]);
                assert(48 <= b@[p as int] <= 57);
                assert(false);
            }
            if end < p {
                // the delimiter after the rendering would be one of the digits
                assert(48 <= b@[end as int] <= 57);
                assert(false);
            }
            assert(dv =~= b@.subrange(pos as int, p as int));
            lemma_val_of_dec(v0 as nat);
            lemma_val_of_dec(v as nat);
        }
    }
    Some((v, p))
}

/// The rendering of the array tail from position `k` on: each further
/// edge with its leading comma.
pub open spec fn spec_join_tail(ids: Seq<u64>, k: int) -> Seq<u8>
    decreases ids.len() - k,
{
    if k < 0 || k >= ids.len() {
        Seq::empty()
    } else {
        seq![44u8] + spec_u64_dec(ids[k] as nat) + spec_join_tail(ids, k + 1)
    }
}

/// Dropping the last edge drops its comma-led rendering from the tail.
proof fn lemma_join_tail_snoc(ids: Seq<u64>, k: int)
    requires
        ids.len() >= 1,
        0 <= k <= ids.len() - 1,
    ensures
        spec_join_tail(ids, k) == spec_join_tail(ids.drop_last(), k) + seq![44u8] + spec_u64_dec(
            ids.last() as nat,
        ),
    decreases ids.len() - k,
{
    if k == ids.len() - 1 {
        assert(spec_join_tail(ids, k + 1) =~= Seq::<u8>::empty());
        assert(spec_join_tail(ids.drop_last(), k) =~= Seq::<u8>::empty());
        assert(ids[k] == ids.last());
        assert(spec_join_tail(ids, k) =~= spec_join_tail(ids.drop_last(), k) + seq![44u8]
            + spec_u64_dec(ids.last() as nat));
    } else {
        lemma_join_tail_snoc(ids, k + 1);
        assert(ids[k] == ids.drop_last()[k]);
        assert(spec_join_tail(ids, k) =~= spec_join_tail(ids.drop_last(), k) + seq![44u8]
            + spec_u64_dec(ids.last() as nat));
    }
}

/// The joined rendering splits after any leading edges.
proof fn lemma_join_split(ids: Seq<u64>, k: int)
    requires
        1 <= k <= ids.len(),
    ensures
        spec_join_ids(ids) == spec_join_ids(ids.subrange(0, k)) + spec_join_tail(ids, k),
    decreases ids.len(),
{
    if k == ids.len() {
        assert(ids.subrange(0, k) =~= ids);
        assert(spec_join_ids(ids) =~= spec_join_ids(ids.subrange(0, k)) + spec_join_tail(ids, k));
    } else {
        let dl = ids.drop_last();
        lemma_join_split(dl, k);
        assert(dl.subrange(0, k) =~= ids.subrange(0, k));
        lemma_join_tail_snoc(ids, k);
        assert(spec_join_ids(ids) == spec_join_ids(dl) + seq![44u8] + spec_u64_dec(
            ids.last() as nat,
        ));
        assert(spec_join_ids(ids) =~= spec_join_ids(ids.subrange(0, k)) + spec_join_tail(ids, k));
    }
}

/// Taking one more edge extends the joined rendering by a comma and that
/// edge's digits.
proof fn lemma_join_step(ids: Seq<u64>, k: int)
    requires
        1 <= k < ids.len(),
    ensures
        spec_join_ids(ids.subrange(0, k + 1)) == spec_join_ids(ids.subrange(0, k)) + seq![44u8]
            + spec_u64_dec(ids[k] as nat),
{
    assert(ids.subrange(0, k + 1).drop_last() =~= ids.subrange(0, k));
    assert(ids.subrange(0, k + 1).last() == ids[k]);
}

/// The rendering of an edge list stands at `pos` in `b`.
pub open spec fn spec_sub_at(b: Seq<u8>, pos: int, ids: Seq<u64>) -> bool {
    &&& 0 <= pos
    &&& pos + spec_ser_subgraph(ids).len() <= b.len()
    &&& b.subrange(pos, pos + spec_ser_subgraph(ids).len()) == spec_ser_subgraph(ids)
}

/// The facts the loop needs about a candidate list rendered at `pos`,
/// of which the first `k` edges are already read: where the cursor is,
/// and what stands at it.
proof fn lemma_sub_candidate(b: Seq<u8>, pos: int, ids0: Seq<u64>, k: int)
    requires
        spec_sub_at(b, pos, ids0),
        1 <= k <= ids0.len(),
    ensures
        spec_join_ids(ids0.subrange(0, k)).len() <= spec_join_ids(ids0).len(),
        k < ids0.len() ==> {
            &&& b[pos + 1 + spec_join_ids(ids0.subrange(0, k)).len()] == 44
            &&& spec_dec_at(b, pos + 2 + spec_join_ids(ids0.subrange(0, k)).len(), ids0[k])
        },
        k == ids0.len() ==> b[pos + 1 + spec_join_ids(ids0.subrange(0, k)).len()] == 93,
{
    lemma_join_split(ids0, k);
    let js = spec_join_ids(ids0.subrange(0, k));
    let tail = spec_join_tail(ids0, k);
    let whole = spec_ser_subgraph(ids0);
    assert(whole == seq![91u8] + spec_join_ids(ids0) + seq![93u8]);
    assert forall|j: int| 0 <= j < whole.len() implies b[pos + j] == #[trigger] whole[j] by {
        assert(b.subrange(pos, pos + whole.len())[j] == b[pos + j]);
    }
    if k < ids0.len() {
        assert(whole[1 + js.len() as int] == tail[0]);
        assert(tail[0] == 44);
        let dv = spec_u64_dec(ids0[k] as nat);
        lemma_dec_shape(ids0[k] as nat);
        assert forall|j: int| 0 <= j < dv.len() implies b[pos + 2 + js.len() + j]
            == #[trigger] dv[j] by {
            assert(whole[2 + js.len() as int + j] == tail[1 + j]);
            assert(tail[1 + j] == dv[j]);
        }
        assert(b.subrange(pos + 2 + js.len(), pos + 2 + js.len() + dv.len()) =~= dv);
        // the byte after the digits is the next comma or the closing bracket
        if k + 1 < ids0.len() {
            assert(tail == seq![44u8] + dv + spec_join_tail(ids0, k + 1));
            assert(spec_join_tail(ids0, k + 1) == seq![44u8] + spec_u64_dec(
                ids0[k + 1] as nat,
            ) + spec_join_tail(ids0, k + 2));
            assert(spec_join_tail(ids0, k + 1)[0] == 44);
            assert(tail[1 + dv.len() as int] == spec_join_tail(ids0, k + 1)[0]);
            assert(whole.len() == 2 + js.len() + tail.len());
            assert(whole[2 + js.len() as int + dv.len() as int] == tail[1 + dv.len() as int]);
            assert(b[pos + 2 + js.len() + dv.len()] == 44);
        } else {
            assert(spec_join_tail(ids0, k + 1) =~= Seq::<u8>::empty());
            assert(tail.len() == 1 + dv.len());
            assert(whole[1 + spec_join_ids(ids0).len() as int] == 93);
            assert(spec_join_ids(ids0).len() == js.len() + tail.len());
            assert(b[pos + 2 + js.len() + dv.len()] == 93);
        }
    } else {
        assert(tail =~= Seq::<u8>::empty());
        assert(whole[1 + spec_join_ids(ids0).len() as int] == 93);
    }
}

/// Read the subgraph array. The bytes consumed are exactly the rendering
/// of the returned edge list, and whatever list's rendering stands here
/// is what comes back.
#[verifier::rlimit(100)]
fn parse_subgraph(b: &Vec<u8>, pos: usize) -> (r: Option<(Vec<u64>, usize)>)
    requires
        pos <= b@.len(),
    ensures
        r matches Some(vp) ==> pos < vp.1 <= b@.len() && b@.subrange(pos as int, vp.1 as int)
            == spec_ser_subgraph(vp.0@),
        forall|ids0: Seq<u64>|
            #[trigger] spec_sub_at(b@, pos as int, ids0) ==> (r matches Some(vp) && vp.0@ == ids0
                && vp.1 == pos + spec_ser_subgraph(ids0).len()),
{
    if pos >= b.len() || b[pos] != 91 {
        proof {
            assert forall|ids0: Seq<u64>| spec_sub_at(b@, pos as int, ids0) implies false by {
                assert(b@.subrange(pos as int, pos + spec_ser_subgraph(ids0).len())[0]
                    == b@[pos as int]);
            }
        }
        return None;
    }
    let mut ids: Vec<u64> = Vec::new();
    let mut p: usize = pos + 1;
    if p < b.len() && b[p] == 93 {
        proof {
            assert(b@.subrange(pos as int, (p + 1) as int) =~= seq![91u8] + seq![93u8]);
            assert(spec_ser_subgraph(ids@) =~= seq![91u8] + seq![93u8]);
            assert forall|ids0: Seq<u64>| spec_sub_at(b@, pos as int, ids0) implies ids0.len()
                == 0 by {
                if ids0.len() >= 1 {
                    lemma_sub_candidate(b@, pos as int, ids0, 1);
                    lemma_join_split(ids0, 1);
                    lemma_dec_shape(ids0[0] as nat);
                    assert(ids0.subrange(0, 1) =~= seq![ids0[0]]);
                    assert(spec_join_ids(seq![ids0[0]]) == spec_u64_dec(ids0[0] as nat));
                    assert(b@.subrange(pos as int, pos + spec_ser_subgraph(ids0).len())[1]
                        == b@[pos + 1]);
                    assert(spec_ser_subgraph(ids0)[1] == spec_u64_dec(ids0[0] as nat)[0]);
                    assert(48 <= b@[p as int] <= 57);
                }
            }
            assert forall|ids0: Seq<u64>| spec_sub_at(b@, pos as int, ids0) implies ids@ == ids0
                && pos + spec_ser_subgraph(ids0).len() == p + 1 by {
                assert(ids0.len() == 0);
                assert(ids0 =~= ids@);
            }
        }
        return Some((ids, p + 1));
    }
    proof {
        // a nonempty rendering at pos would put the first edge's digits here
        assert forall|ids0: Seq<u64>| spec_sub_at(b@, pos as int, ids0) implies ids0.len() >= 1
            && spec_dec_at(b@, (pos + 2) as int - 1, ids0[0]) by {
            if ids0.len() == 0 {
                assert(spec_ser_subgraph(ids0) =~= seq![91u8, 93]);
                assert(b@.subrange(pos as int, pos + 2)[1] == b@[pos + 1]);
                assert(b@[pos + 1] == 93 && pos + 1 < b@.len());
                assert(false);
            }
            lemma_join_split(ids0, 1);
            assert(ids0.subrange(0, 1) =~= seq![ids0[0]]);
            assert(spec_join_ids(ids0.subrange(0, 1)) == spec_u64_dec(ids0[0] as nat));
            let dv = spec_u64_dec(ids0[0] as nat);
            let whole = spec_ser_subgraph(ids0);
            assert forall|j: int| 0 <= j < whole.len() implies b@[pos + j]
                == #[trigger] whole[j] by {
                assert(b@.subrange(pos as int, pos + whole.len())[j] == b@[pos + j]);
            }
            assert forall|j: int| 0 <= j < dv.len() implies b@[pos + 1 + j] == #[trigger] dv[j] by {
                assert(whole[1 + j] == dv[j]);
            }
            assert(b@.subrange(pos + 1, pos + 1 + dv.len()) =~= dv);
            if ids0.len() == 1 {
                assert(whole[1 + dv.len() as int] == 93);
            } else {
                lemma_sub_candidate(b@, pos as int, ids0, 1);
                assert(spec_join_tail(ids0, 1)[0] == 44);
                assert(whole[1 + dv.len() as int] == 44);
            }
        }
    }
    let first = match parse_u64_canon(b, p) {
        Some(vp) => vp,
        None => {
            return None;
        },
    };
    ids.push(first.0);
    p = first.1;
    proof {
        assert(ids@ =~= seq![first.0]);
        assert(spec_join_ids(ids@) == spec_u64_dec(first.0 as nat));
        assert(b@.subrange(pos as int, p as int) =~= seq![91u8] + spec_join_ids(ids@));
        assert forall|ids0: Seq<u64>| spec_sub_at(b@, pos as int, ids0) implies 1 <= ids@.len()
            <= ids0.len() && ids@ == ids0.subrange(0, ids@.len() as int) && p == pos + 1
            + spec_join_ids(ids0.subrange(0, ids@.len() as int)).len() by {
            assert(first.0 == ids0[0]);
            assert(ids0.subrange(0, 1) =~= seq![ids0[0]]);
            assert(spec_join_ids(ids0.subrange(0, 1)) == spec_u64_dec(ids0[0] as nat));
        }
    }
    loop
        invariant_except_break
            pos < p <= b@.len(),
            ids@.len() >= 1,
            b@.subrange(pos as int, p as int) == seq![91u8] + spec_join_ids(ids@),
            forall|ids0: Seq<u64>|
                #[trigger] spec_sub_at(b@, pos as int, ids0) ==> (1 <= ids@.len() <= ids0.len()
                    && ids@ == ids0.subrange(0, ids@.len() as int) && p == pos + 1 + spec_join_ids(
                    ids0.subrange(0, ids@.len() as int),
                ).len()),
        ensures
            pos < p <= b@.len(),
            ids@.len() >= 1,
            b@.subrange(pos as int, p as int) == seq![91u8] + spec_join_ids(ids@) + seq![93u8],
            forall|ids0: Seq<u64>|
                #[trigger] spec_sub_at(b@, pos as int, ids0) ==> (ids@ == ids0 && p == pos
                    + spec_ser_subgraph(ids0).len()),
        decreases b@.len() - p,
    {
        if p >= b.len() {
            proof {
                assert forall|ids0: Seq<u64>| spec_sub_at(b@, pos as int, ids0) implies false by {
                    lemma_sub_candidate(b@, pos as int, ids0, ids@.len() as int);
                }
            }
            return None;
        }
        let c = b[p];
        if c == 93 {
            p = p + 1;
            proof {
                assert(b@.subrange(pos as int, p as int) =~= b@.subrange(
                    pos as int,
                    (p - 1) as int,
                ) + seq![93u8]);
                assert forall|ids0: Seq<u64>| spec_sub_at(b@, pos as int, ids0) implies ids@
                    == ids0 && p == pos + spec_ser_subgraph(ids0).len() by {
                    let k = ids@.len() as int;
                    lemma_sub_candidate(b@, pos as int, ids0, k);
                    if k < ids0.len() {
                        assert(b@[(p - 1) as int] == 44);
                        assert(false);
                    }
                    assert(ids0.subrange(0, k) =~= ids0);
                }
            }
            break;
        }
        if c != 44 {
            proof {
                assert forall|ids0: Seq<u64>| spec_sub_at(b@, pos as int, ids0) implies false by {
                    lemma_sub_candidate(b@, pos as int, ids0, ids@.len() as int);
                    if ids@.len() < ids0.len() {
                        assert(b@[p as int] == 44);
                    } else {
                        assert(b@[p as int] == 93);
                    }
                }
            }
            return None;
        }
        proof {
            assert forall|ids0: Seq<u64>| spec_sub_at(b@, pos as int, ids0) implies ids@.len()
                < ids0.len() && spec_dec_at(b@, (p + 1) as int, ids0[ids@.len() as int]) by {
                let k = ids@.len() as int;
                lemma_sub_candidate(b@, pos as int, ids0, k);
                if k == ids0.len() {
                    assert(b@[p as int] == 93);
                    assert(false);
                }
            }
        }
        let next = match parse_u64_canon(b, p + 1) {
            Some(vp) => vp,
            None => {
                return None;
            },
        };
        let ghost old_ids = ids@;
        let ghost old_p = p as int;
        ids.push(next.0);
        proof {
            assert(ids@.drop_last() =~= old_ids);
            assert(ids@.last() == next.0);
            assert(spec_join_ids(ids@) == spec_join_ids(old_ids) + seq![44u8] + spec_u64_dec(
                next.0 as nat,
            ));
            assert(b@.subrange(pos as int, next.1 as int) =~= b@.subrange(pos as int, p as int)
                + seq![44u8] + b@.subrange((p + 1) as int, next.1 as int));
            assert forall|ids0: Seq<u64>| spec_sub_at(b@, pos as int, ids0) implies 1 <= ids@.len()
                <= ids0.len() && ids@ == ids0.subrange(0, ids@.len() as int) && next.1 == pos + 1
                + spec_join_ids(ids0.subrange(0, ids@.len() as int)).len() by {
                let k = old_ids.len() as int;
                assert(next.0 == ids0[k]);
                assert(ids@ =~= ids0.subrange(0, k + 1));
                lemma_join_step(ids0, k);
            }
        }
        p = next.1;
    }
    proof {
        assert(spec_ser_subgraph(ids@) == seq![91u8] + spec_join_ids(ids@) + seq![93u8]);
    }
    Some((ids, p))
}

/// Whether a token may stand unquoted between a key and a separator: it
/// holds neither a comma nor a closing brace.
pub open spec fn spec_wf_token(t: Seq<u8>) -> bool {
    forall|i: int| 0 <= i < t.len() ==> #[trigger] t[i] != 44 && t[i] != 125
}

/// A well-formed token stands at `pos`, delimited by a separator.
pub open spec fn spec_token_at(b: Seq<u8>, pos: int, t: Seq<u8>) -> bool {
    &&& pos + t.len() < b.len()
    &&& b.subrange(pos, pos + t.len()) == t
    &&& spec_wf_token(t)
    &&& (b[pos + t.len()] == 44 || b[pos + t.len()] == 125)
}

/// Read a number token: everything up to the next comma or closing brace.
fn scan_token(b: &Vec<u8>, pos: usize) -> (r: Option<usize>)
    requires
        pos <= b@.len(),
    ensures
        r matches Some(p) ==> pos <= p < b@.len() && (b@[p as int] == 44 || b@[p as int] == 125),
        forall|t0: Seq<u8>| #[trigger] spec_token_at(b@, pos as int, t0) ==> r == Some(
            (pos + t0.len()) as usize,
        ),
{
    let mut p: usize = pos;
    while p < b.len()
        invariant
            pos <= p <= b@.len(),
            forall|j: int| pos <= j < p ==> #[trigger] b@[j] != 44 && b@[j] != 125,
        decreases b@.len() - p,
    {
        let c = b[p];
        if c == 44 || c == 125 {
            proof {
                assert forall|t0: Seq<u8>| spec_token_at(b@, pos as int, t0) implies pos + t0.len()
                    == p by {
                    if pos + t0.len() < p {
                        assert(b@[pos + t0.len()] != 44 && b@[pos + t0.len()] != 125);
                    }
                    if pos + t0.len() > p {
                        assert(b@.subrange(pos as int, pos + t0.len())[p - pos] == b@[p as int]);
                        assert(t0[p - pos] != 44 && t0[p - pos] != 125);
                    }
                }
            }
            return Some(p);
        }
        p = p + 1;
    }
    proof {
        assert forall|t0: Seq<u8>| spec_token_at(b@, pos as int, t0) implies false by {
            assert(b@[pos + t0.len()] != 44 && b@[pos + t0.len()] != 125);
        }
    }
    None
}

/// Extending a string by one byte extends its escaped body by that
/// byte's escape.
proof fn lemma_escape_step(s: Seq<u8>, k: int)
    requires
        0 <= k < s.len(),
    ensures
        spec_escape(s.subrange(0, k + 1)) == spec_escape(s.subrange(0, k)) + spec_esc_byte(s[k]),
{
    assert(s.subrange(0, k + 1).drop_last() =~= s.subrange(0, k));
    assert(s.subrange(0, k + 1).last() == s[k]);
}

/// An escaped body splits at any byte boundary of its source.
proof fn lemma_escape_split(s: Seq<u8>, k: int)
    requires
        0 <= k <= s.len(),
    ensures
        spec_escape(s) == spec_escape(s.subrange(0, k)) + spec_escape(
            s.subrange(k, s.len() as int),
        ),
    decreases s.len(),
{
    if k == s.len() {
        assert(s.subrange(0, k) =~= s);
        assert(s.subrange(k, s.len() as int) =~= Seq::<u8>::empty());
        assert(spec_escape(Seq::<u8>::empty()) == Seq::<u8>::empty());
        assert(spec_escape(s) =~= spec_escape(s) + Seq::<u8>::empty());
    } else {
        let dl = s.drop_last();
        lemma_escape_split(dl, k);
        assert(dl.subrange(0, k) =~= s.subrange(0, k));
        assert(s.subrange(k, s.len() as int).drop_last() =~= dl.subrange(k, dl.len() as int));
        assert(s.subrange(k, s.len() as int).last() == s.last());
        assert(spec_escape(s.subrange(k, s.len() as int)) == spec_escape(
            dl.subrange(k, dl.len() as int),
        ) + spec_esc_byte(s.last()));
        assert(spec_escape(s) =~= spec_escape(s.subrange(0, k)) + spec_escape(
            s.subrange(k, s.len() as int),
        ));
    }
}

/// Where the escape of the byte at `k` stands inside the escaped body.
proof fn lemma_escape_at(b: Seq<u8>, pos: int, h0: Seq<u8>, k: int)
    requires
        0 <= pos,
        pos + spec_escape(h0).len() <= b.len(),
        b.subrange(pos, pos + spec_escape(h0).len()) == spec_escape(h0),
        0 <= k < h0.len(),
    ensures
        spec_escape(h0.subrange(0, k)).len() + spec_esc_byte(h0[k]).len() <= spec_escape(
            h0,
        ).len(),
        forall|j: int|
            0 <= j < spec_esc_byte(h0[k]).len() ==> b[pos + spec_escape(h0.subrange(0, k)).len()
                + j] == #[trigger] spec_esc_byte(h0[k])[j],
{
    lemma_escape_split(h0, k + 1);
    lemma_escape_step(h0, k);
    let pre = spec_escape(h0.subrange(0, k));
    let e = spec_esc_byte(h0[k]);
    assert forall|j: int| 0 <= j < e.len() implies b[pos + pre.len() + j] == #[trigger] e[j] by {
        assert(spec_escape(h0)[pre.len() + j] == e[j]);
        assert(b.subrange(pos, pos + spec_escape(h0).len())[pre.len() + j] == b[pos + pre.len()
            + j]);
    }
}

/// An escaped prefix never outruns the whole escaped body.
proof fn lemma_escape_prefix_len(h0: Seq<u8>, k: int)
    requires
        0 <= k <= h0.len(),
    ensures
        spec_escape(h0.subrange(0, k)).len() <= spec_escape(h0).len(),
{
    lemma_escape_split(h0, k);
}

/// The value of one lowercase hexadecimal digit byte.
fn hex_val(c: u8) -> (r: Option<u8>)
    ensures
        r matches Some(d) ==> d < 16 && spec_hex_digit(d) == c,
        forall|d: u8| d < 16 && c == spec_hex_digit(d) ==> r == Some(d),
{
    if 48 <= c && c <= 57 {
        Some(c - 48)
    } else if 97 <= c && c <= 102 {
        Some(c - 97 + 10)
    } else {
        None
    }
}

/// The escaped rendering of a string stands at `pos`, closed by a quote.
pub open spec fn spec_esc_at(b: Seq<u8>, pos: int, h: Seq<u8>) -> bool {
    &&& 0 <= pos
    &&& pos + spec_escape(h).len() < b.len()
    &&& b.subrange(pos, pos + spec_escape(h).len()) == spec_escape(h)
    &&& b[pos + spec_escape(h).len()] == 34
}

/// Read a quoted string body up to its closing quote, undoing the escapes.
/// The bytes consumed are exactly the escaped rendering of the result, and
/// whatever string's rendering stands here is what comes back.
#[verifier::rlimit(100)]
fn unescape_body(b: &Vec<u8>, pos: usize) -> (r: Option<(Vec<u8>, usize)>)
    requires
        pos <= b@.len(),
    ensures
        r matches Some(hp) ==> pos <= hp.1 < b@.len() && b@[hp.1 as int] == 34 && b@.subrange(
            pos as int,
            hp.1 as int,
        ) == spec_escape(hp.0@),
        forall|h0: Seq<u8>|
            #[trigger] spec_esc_at(b@, pos as int, h0) ==> (r matches Some(hp) && hp.0@ == h0
                && hp.1 == pos + spec_escape(h0).len()),
{
    let mut h: Vec<u8> = Vec::new();
    let mut p: usize = pos;
    proof {
        assert(b@.subrange(pos as int, p as int) =~= spec_escape(h@));
        assert forall|h0: Seq<u8>| spec_esc_at(b@, pos as int, h0) implies h@.len() <= h0.len()
            && h@ == h0.subrange(0, h@.len() as int) && p == pos + spec_escape(
            h0.subrange(0, h@.len() as int),
        ).len() by {
            assert(h0.subrange(0, 0) =~= Seq::<u8>::empty());
            assert(h@ =~= h0.subrange(0, 0));
            assert(spec_escape(Seq::<u8>::empty()) == Seq::<u8>::empty());
        }
    }
    loop
        invariant_except_break
            pos <= p <= b@.len(),
            b@.subrange(pos as int, p as int) == spec_escape(h@),
            forall|h0: Seq<u8>|
                #[trigger] spec_esc_at(b@, pos as int, h0) ==> (h@.len() <= h0.len() && h@
                    == h0.subrange(0, h@.len() as int) && p == pos + spec_escape(
                    h0.subrange(0, h@.len() as int),
                ).len()),
        ensures
            pos <= p < b@.len(),
            b@[p as int] == 34,
            b@.subrange(pos as int, p as int) == spec_escape(h@),
            forall|h0: Seq<u8>|
                #[trigger] spec_esc_at(b@, pos as int, h0) ==> (h@.len() <= h0.len() && h@
                    == h0.subrange(0, h@.len() as int) && p == pos + spec_escape(
                    h0.subrange(0, h@.len() as int),
                ).len()),
        decreases b@.len() - p,
    {
        if p >= b.len() {
            proof {
                assert forall|h0: Seq<u8>| spec_esc_at(b@, pos as int, h0) implies false by {
                    lemma_escape_prefix_len(h0, h@.len() as int);
                }
            }
            return None;
        }
        let c = b[p];
        if c == 34 {
            break;
        }
        if c == 92 {
            if p + 1 >= b.len() {
                proof {
                    assert forall|h0: Seq<u8>| spec_esc_at(b@, pos as int, h0) implies false by {
                        let k = h@.len() as int;
                        if k == h0.len() {
                            assert(h0.subrange(0, k) =~= h0);
                            assert(b@[p as int] == 34);
                        } else {
                            lemma_escape_at(b@, pos as int, h0, k);
                            lemma_escape_prefix_len(h0, k + 1);
                            lemma_escape_step(h0, k);
                            assert(b@[p as int] == spec_esc_byte(h0[k])[0]);
                            assert(spec_esc_byte(h0[k]).len() >= 2);
                        }
                    }
                }
                return None;
            }
            let e = b[p + 1];
            if e == 34 || e == 92 {
                let ghost old_h = h@;
                let ghost old_p = p as int;
                h.push(e);
                p = p + 2;
                proof {
                    assert(h@.drop_last() =~= old_h);
                    assert(h@.last() == e);
                    assert(b@.subrange(pos as int, p as int) =~= b@.subrange(
                        pos as int,
                        (p - 2) as int,
                    ) + seq![92u8, e]);
                    assert forall|h0: Seq<u8>| spec_esc_at(b@, pos as int, h0) implies h@.len()
                        <= h0.len() && h@ == h0.subrange(0, h@.len() as int) && p == pos
                        + spec_escape(h0.subrange(0, h@.len() as int)).len() by {
                        let k = old_h.len() as int;
                        if k == h0.len() {
                            assert(h0.subrange(0, k) =~= h0);
                            assert(b@[old_p] == 34);
                            assert(false);
                        }
                        lemma_escape_at(b@, pos as int, h0, k);
                        assert(b@[old_p] == spec_esc_byte(h0[k])[0]);
                        assert(b@[old_p + 1] == spec_esc_byte(h0[k])[1]);
                        assert(h0[k] == e);
                        assert(h@ =~= h0.subrange(0, k + 1));
                        lemma_escape_step(h0, k);
                    }
                }
            } else if e == 117 {
                if b.len() - p < 6 {
                    proof {
                        assert forall|h0: Seq<u8>| spec_esc_at(b@, pos as int, h0) implies
                            false by {
                            let k = h@.len() as int;
                            if k == h0.len() {
                                assert(h0.subrange(0, k) =~= h0);
                                assert(b@[p as int] == 34);
                            } else {
                                lemma_escape_at(b@, pos as int, h0, k);
                                lemma_escape_prefix_len(h0, k + 1);
                                lemma_escape_step(h0, k);
                                assert(b@[p as int] == spec_esc_byte(h0[k])[0]);
                                assert(b@[p + 1] == spec_esc_byte(h0[k])[1]);
                                assert(h0[k] < 32);
                                assert(spec_esc_byte(h0[k]).len() == 6);
                            }
                        }
                    }
                    return None;
                }
                proof {
                    assert forall|h0: Seq<u8>| spec_esc_at(b@, pos as int, h0) implies h@.len()
                        < h0.len() && h0[h@.len() as int] < 32 && b@[p + 2] == 48 && b@[p + 3]
                        == 48 && b@[p + 4] == spec_hex_digit(h0[h@.len() as int] / 16) && b@[p + 5]
                        == spec_hex_digit(h0[h@.len() as int] % 16) by {
                        let k = h@.len() as int;
                        if k == h0.len() {
                            assert(h0.subrange(0, k) =~= h0);
                            assert(b@[p as int] == 34);
                            assert(false);
                        }
                        lemma_escape_at(b@, pos as int, h0, k);
                        assert(b@[p as int] == spec_esc_byte(h0[k])[0]);
                        assert(b@[p + 1] == spec_esc_byte(h0[k])[1]);
                        assert(h0[k] < 32);
                        assert(b@[p + 2] == spec_esc_byte(h0[k])[2]);
                        assert(b@[p + 3] == spec_esc_byte(h0[k])[3]);
                        assert(b@[p + 4] == spec_esc_byte(h0[k])[4]);
                        assert(b@[p + 5] == spec_esc_byte(h0[k])[5]);
                    }
                }
                if b[p + 2] != 48 || b[p + 3] != 48 {
                    return None;
                }
                let h1 = match hex_val(b[p + 4]) {
                    Some(v) => v,
                    None => {
                        return None;
                    },
                };
                let h2 = match hex_val(b[p + 5]) {
                    Some(v) => v,
                    None => {
                        return None;
                    },
                };
                let v = h1 * 16 + h2;
                if v >= 32 {
                    proof {
                        assert forall|h0: Seq<u8>| spec_esc_at(b@, pos as int, h0) implies
                            false by {
                            let k = h@.len() as int;
                            let hk = h0[k];
                            assert(spec_hex_digit(h1) == spec_hex_digit(hk / 16));
                            assert(spec_hex_digit(h2) == spec_hex_digit(hk % 16));
                            assert(h1 == hk / 16 && h2 == hk % 16);
                            assert((hk / 16) * 16 + hk % 16 == hk) by (nonlinear_arith);
                        }
                    }
                    return None;
                }
                let ghost old_h = h@;
                let ghost old_p = p as int;
                h.push(v);
                p = p + 6;
                proof {
                    assert(h@.drop_last() =~= old_h);
                    assert(h@.last() == v);
                    assert(v / 16 == h1 && v % 16 == h2) by (nonlinear_arith)
                        requires
                            h1 < 16,
                            h2 < 16,
                            v == h1 * 16 + h2,
                    ;
                    assert(spec_esc_byte(v) =~= seq![92u8, 117, 48, 48, spec_hex_digit(h1),
                        spec_hex_digit(h2)]);
                    assert(b@.subrange(pos as int, p as int) =~= b@.subrange(
                        pos as int,
                        (p - 6) as int,
                    ) + spec_esc_byte(v));
                    assert forall|h0: Seq<u8>| spec_esc_at(b@, pos as int, h0) implies h@.len()
                        <= h0.len() && h@ == h0.subrange(0, h@.len() as int) && p == pos
                        + spec_escape(h0.subrange(0, h@.len() as int)).len() by {
                        let k = old_h.len() as int;
                        let hk = h0[k];
                        assert(spec_hex_digit(h1) == spec_hex_digit(hk / 16));
                        assert(spec_hex_digit(h2) == spec_hex_digit(hk % 16));
                        assert(h1 == hk / 16 && h2 == hk % 16);
                        assert((hk / 16) * 16 + hk % 16 == hk) by (nonlinear_arith);
                        assert(hk == v);
                        assert(h@ =~= h0.subrange(0, k + 1));
                        lemma_escape_step(h0, k);
                        assert(spec_esc_byte(hk).len() == 6);
                    }
                }
            } else {
                proof {
                    assert forall|h0: Seq<u8>| spec_esc_at(b@, pos as int, h0) implies false by {
                        let k = h@.len() as int;
                        if k == h0.len() {
                            assert(h0.subrange(0, k) =~= h0);
                            assert(b@[p as int] == 34);
                        } else {
                            lemma_escape_at(b@, pos as int, h0, k);
                            assert(b@[p as int] == spec_esc_byte(h0[k])[0]);
                            assert(b@[p + 1] == spec_esc_byte(h0[k])[1]);
                        }
                    }
                }
                return None;
            }
        } else {
            if c < 32 {
                proof {
                    assert forall|h0: Seq<u8>| spec_esc_at(b@, pos as int, h0) implies false by {
                        let k = h@.len() as int;
                        if k == h0.len() {
                            assert(h0.subrange(0, k) =~= h0);
                            assert(b@[p as int] == 34);
                        } else {
                            lemma_escape_at(b@, pos as int, h0, k);
                            assert(b@[p as int] == spec_esc_byte(h0[k])[0]);
                        }
                    }
                }
                return None;
            }
            let ghost old_h = h@;
            let ghost old_p = p as int;
            h.push(c);
            p = p + 1;
            proof {
                assert(h@.drop_last() =~= old_h);
                assert(h@.last() == c);
                assert(b@.subrange(pos as int, p as int) =~= b@.subrange(pos as int, (p - 1) as int)
                    + seq![c]);
                assert forall|h0: Seq<u8>| spec_esc_at(b@, pos as int, h0) implies h@.len()
                    <= h0.len() && h@ == h0.subrange(0, h@.len() as int) && p == pos + spec_escape(
                    h0.subrange(0, h@.len() as int),
                ).len() by {
                    let k = old_h.len() as int;
                    if k == h0.len() {
                        assert(h0.subrange(0, k) =~= h0);
                        assert(b@[old_p] == 34);
                        assert(false);
                    }
                    lemma_escape_at(b@, pos as int, h0, k);
                    assert(b@[old_p] == spec_esc_byte(h0[k])[0]);
                    assert(h0[k] == c);
                    assert(h@ =~= h0.subrange(0, k + 1));
                    lemma_escape_step(h0, k);
                }
            }
        }
    }
    proof {
        assert forall|h0: Seq<u8>| spec_esc_at(b@, pos as int, h0) implies h@ == h0 && p == pos
            + spec_escape(h0).len() by {
            let k = h@.len() as int;
            if k < h0.len() {
                lemma_escape_at(b@, pos as int, h0, k);
                assert(b@[p as int] == spec_esc_byte(h0[k])[0]);
                assert(false);
            }
            assert(h0.subrange(0, h0.len() as int) =~= h0);
        }
    }
    Some((h, p))
}

fn key_subgraph_vec() -> (v: Vec<u8>)
    ensures
        v@ == key_subgraph(),
{
    let mut v: Vec<u8> = Vec::new();
    v.push(34);
    v.push(115);
    v.push(117);
    v.push(98);
    v.push(103);
    v.push(114);
    v.push(97);
    v.push(112);
    v.push(104);
    v.push(34);
    v.push(58);
    assert(v@ =~= key_subgraph());
    v
}

fn key_weight_range_vec() -> (v: Vec<u8>)
    ensures
        v@ == key_weight_range(),
{
    let mut v: Vec<u8> = Vec::new();
    v.push(34);
    v.push(119);
    v.push(101);
    v.push(105);
    v.push(103);
    v.push(104);
    v.push(116);
    v.push(95);
    v.push(114);
    v.push(97);
    v.push(110);
    v.push(103);
    v.push(101);
    v.push(34);
    v.push(58);
    assert(v@ =~= key_weight_range());
    v
}

fn key_lower_vec() -> (v: Vec<u8>)
    ensures
        v@ == key_lower(),
{
    let mut v: Vec<u8> = Vec::new();
    v.push(34);
    v.push(108);
    v.push(111);
    v.push(119);
    v.push(101);
    v.push(114);
    v.push(34);
    v.push(58);
    assert(v@ =~= key_lower());
    v
}

fn key_upper_vec() -> (v: Vec<u8>)
    ensures
        v@ == key_upper(),
{
    let mut v: Vec<u8> = Vec::new();
    v.push(34);
    v.push(117);
    v.push(112);
    v.push(112);
    v.push(101);
    v.push(114);
    v.push(34);
    v.push(58);
    assert(v@ =~= key_upper());
    v
}

fn key_ln_vec() -> (v: Vec<u8>)
    ensures
        v@ == key_ln(),
{
    let mut v: Vec<u8> = Vec::new();
    v.push(34);
    v.push(108);
    v.push(110);
    v.push(34);
    v.push(58);
    assert(v@ =~= key_ln());
    v
}

fn key_ld_vec() -> (v: Vec<u8>)
    ensures
        v@ == key_ld(),
{
    let mut v: Vec<u8> = Vec::new();
    v.push(34);
    v.push(108);
    v.push(100);
    v.push(34);
    v.push(58);
    assert(v@ =~= key_ld());
    v
}

fn key_un_vec() -> (v: Vec<u8>)
    ensures
        v@ == key_un(),
{
    let mut v: Vec<u8> = Vec::new();
    v.push(34);
    v.push(117);
    v.push(110);
    v.push(34);
    v.push(58);
    assert(v@ =~= key_un());
    v
}

fn key_ud_vec() -> (v: Vec<u8>)
    ensures
        v@ == key_ud(),
{
    let mut v: Vec<u8> = Vec::new();
    v.push(34);
    v.push(117);
    v.push(100);
    v.push(34);
    v.push(58);
    assert(v@ =~= key_ud());
    v
}

fn key_html_vec() -> (v: Vec<u8>)
    ensures
        v@ == key_html(),
{
    let mut v: Vec<u8> = Vec::new();
    v.push(34);
    v.push(104);
    v.push(116);
    v.push(109);
    v.push(108);
    v.push(34);
    v.push(58);
    assert(v@ =~= key_html());
    v
}

fn key_json_vec() -> (v: Vec<u8>)
    ensures
        v@ == key_json(),
{
    let mut v: Vec<u8> = Vec::new();
    v.push(34);
    v.push(106);
    v.push(115);
    v.push(111);
    v.push(110);
    v.push(34);
    v.push(58);
    assert(v@ =~= key_json());
    v
}

/// A keyed token with its separator stands at `pos` in `b`.
pub open spec fn spec_field_at(b: Seq<u8>, pos: int, key: Seq<u8>, t: Seq<u8>, sep: u8) -> bool {
    &&& 0 <= pos
    &&& pos + key.len() + t.len() + 1 <= b.len()
    &&& b.subrange(pos, pos + key.len() + t.len() + 1) == key + t + seq![sep]
    &&& spec_wf_token(t)
    &&& (sep == 44 || sep == 125)
}

/// Read one keyed number token followed by the given separator. The bytes
/// consumed are exactly the key, the token and the separator, and
/// whatever token stands here is what comes back.
fn parse_wr_field(b: &Vec<u8>, pos: usize, key: &Vec<u8>, sep: u8) -> (r: Option<(Vec<u8>, usize)>)
    requires
        pos <= b@.len(),
    ensures
        r matches Some(tp) ==> pos <= tp.1 <= b@.len() && b@.subrange(pos as int, tp.1 as int)
            == key@ + tp.0@ + seq![sep],
        forall|t0: Seq<u8>|
            #[trigger] spec_field_at(b@, pos as int, key@, t0, sep) ==> (r matches Some(tp)
                && tp.0@ == t0 && tp.1 == pos + key@.len() + t0.len() + 1),
{
    proof {
        assert forall|t0: Seq<u8>| spec_field_at(b@, pos as int, key@, t0, sep) implies b@.subrange(
            pos as int,
            pos + key@.len(),
        ) == key@ && spec_token_at(b@, pos + key@.len(), t0) by {
            let u = key@ + t0 + seq![sep];
            assert forall|j: int| 0 <= j < u.len() implies b@[pos + j] == #[trigger] u[j] by {
                assert(b@.subrange(pos as int, pos + u.len())[j] == b@[pos + j]);
            }
            assert forall|i: int| 0 <= i < key@.len() implies b@[pos + i]
                == #[trigger] key@[i] by {
                assert(u[i] == key@[i]);
            }
            assert(b@.subrange(pos as int, pos + key@.len()) =~= key@);
            assert forall|i: int| 0 <= i < t0.len() implies b@[pos + key@.len() + i]
                == #[trigger] t0[i] by {
                assert(u[key@.len() as int + i] == t0[i]);
            }
            assert(b@.subrange(pos + key@.len(), pos + key@.len() + t0.len()) =~= t0);
            assert(u[key@.len() as int + t0.len() as int] == sep);
            assert(b@[pos + key@.len() + t0.len()] == sep);
        }
    }
    let kp = match eat_lit(b, pos, key) {
        Some(p) => p,
        None => {
            return None;
        },
    };
    let tend = match scan_token(b, kp) {
        Some(p) => p,
        None => {
            return None;
        },
    };
    let blen = b.len();
    assert(tend < blen);
    if b[tend] != sep {
        proof {
            assert forall|t0: Seq<u8>| spec_field_at(b@, pos as int, key@, t0, sep) implies
                false by {
                assert(spec_token_at(b@, kp as int, t0));
                assert(kp + t0.len() < blen);
                let u = key@ + t0 + seq![sep];
                assert(b@.subrange(pos as int, pos + u.len())[key@.len() as int + t0.len() as int]
                    == b@[pos + key@.len() + t0.len()]);
                assert(u[key@.len() as int + t0.len() as int] == sep);
                assert(b@[pos + key@.len() + t0.len()] == sep);
            }
        }
        return None;
    }
    let tok = copy_range(b, kp, tend);
    proof {
        assert(b@.subrange(pos as int, (tend + 1) as int) =~= b@.subrange(pos as int, kp as int)
            + b@.subrange(kp as int, tend as int) + seq![sep]);
        assert forall|t0: Seq<u8>| spec_field_at(b@, pos as int, key@, t0, sep) implies tok@ == t0
            && tend + 1 == pos + key@.len() + t0.len() + 1 by {
            assert(spec_token_at(b@, kp as int, t0));
        }
    }
    Some((tok, tend + 1))
}

/// Whether every token of an encoded weight bound may stand unquoted.
pub open spec fn spec_wf_wr(w: WeightRangeEnc) -> bool {
    &&& spec_wf_token(w.lower@)
    &&& spec_wf_token(w.upper@)
    &&& spec_wf_token(w.ln@)
    &&& spec_wf_token(w.ld@)
    &&& spec_wf_token(w.un@)
    &&& spec_wf_token(w.ud@)
}

/// The rendering of a well-formed weight bound stands at `pos` in `b`.
pub open spec fn spec_wr_at(b: Seq<u8>, pos: int, w: WeightRangeEnc) -> bool {
    &&& 0 <= pos
    &&& pos + spec_ser_weight_range(w).len() <= b.len()
    &&& b.subrange(pos, pos + spec_ser_weight_range(w).len()) == spec_ser_weight_range(w)
    &&& spec_wf_wr(w)
}

/// The six keyed units a weight-bound rendering is made of, in order.
proof fn lemma_wr_units(b: Seq<u8>, pos: int, w: WeightRangeEnc)
    requires
        spec_wr_at(b, pos, w),
    ensures
        b[pos] == 123,
        spec_field_at(b, pos + 1, key_lower(), w.lower@, 44),
        spec_field_at(b, pos + 1 + key_lower().len() + w.lower@.len() + 1, key_upper(), w.upper@,
            44),
        spec_field_at(
            b,
            pos + 1 + key_lower().len() + w.lower@.len() + 1 + key_upper().len() + w.upper@.len()
                + 1,
            key_ln(),
            w.ln@,
            44,
        ),
        spec_field_at(
            b,
            pos + 1 + key_lower().len() + w.lower@.len() + 1 + key_upper().len() + w.upper@.len()
                + 1 + key_ln().len() + w.ln@.len() + 1,
            key_ld(),
            w.ld@,
            44,
        ),
        spec_field_at(
            b,
            pos + 1 + key_lower().len() + w.lower@.len() + 1 + key_upper().len() + w.upper@.len()
                + 1 + key_ln().len() + w.ln@.len() + 1 + key_ld().len() + w.ld@.len() + 1,
            key_un(),
            w.un@,
            44,
        ),
        spec_field_at(
            b,
            pos + 1 + key_lower().len() + w.lower@.len() + 1 + key_upper().len() + w.upper@.len()
                + 1 + key_ln().len() + w.ln@.len() + 1 + key_ld().len() + w.ld@.len() + 1
                + key_un().len() + w.un@.len() + 1,
            key_ud(),
            w.ud@,
            125,
        ),
{
    let u1 = key_lower() + w.lower@ + seq![44u8];
    let u2 = key_upper() + w.upper@ + seq![44u8];
    let u3 = key_ln() + w.ln@ + seq![44u8];
    let u4 = key_ld() + w.ld@ + seq![44u8];
    let u5 = key_un() + w.un@ + seq![44u8];
    let u6 = key_ud() + w.ud@ + seq![125u8];
    let whole = spec_ser_weight_range(w);
    assert(whole =~= seq![123u8] + u1 + u2 + u3 + u4 + u5 + u6);
    assert forall|j: int| 0 <= j < whole.len() implies b[pos + j] == #[trigger] whole[j] by {
        assert(b.subrange(pos, pos + whole.len())[j] == b[pos + j]);
    }
    assert(whole[0] == 123);
    assert(b[pos] == whole[0]);
    let o1: int = pos + 1;
    let o2: int = o1 + u1.len();
    let o3: int = o2 + u2.len();
    let o4: int = o3 + u3.len();
    let o5: int = o4 + u4.len();
    let o6: int = o5 + u5.len();
    assert forall|i: int| 0 <= i < u1.len() implies b[o1 + i] == #[trigger] u1[i] by {
        assert(whole[1 + i] == u1[i]);
    }
    assert(b.subrange(o1, o1 + u1.len()) =~= u1);
    assert forall|i: int| 0 <= i < u2.len() implies b[o2 + i] == #[trigger] u2[i] by {
        assert(whole[o2 - pos + i] == u2[i]);
    }
    assert(b.subrange(o2, o2 + u2.len()) =~= u2);
    assert forall|i: int| 0 <= i < u3.len() implies b[o3 + i] == #[trigger] u3[i] by {
        assert(whole[o3 - pos + i] == u3[i]);
    }
    assert(b.subrange(o3, o3 + u3.len()) =~= u3);
    assert forall|i: int| 0 <= i < u4.len() implies b[o4 + i] == #[trigger] u4[i] by {
        assert(whole[o4 - pos + i] == u4[i]);
    }
    assert(b.subrange(o4, o4 + u4.len()) =~= u4);
    assert forall|i: int| 0 <= i < u5.len() implies b[o5 + i] == #[trigger] u5[i] by {
        assert(whole[o5 - pos + i] == u5[i]);
    }
    assert(b.subrange(o5, o5 + u5.len()) =~= u5);
    assert forall|i: int| 0 <= i < u6.len() implies b[o6 + i] == #[trigger] u6[i] by {
        assert(whole[o6 - pos + i] == u6[i]);
    }
    assert(b.subrange(o6, o6 + u6.len()) =~= u6);
}

/// Read the weight-bound object. The bytes consumed are exactly the
/// rendering of the returned encoding, and whatever well-formed bound's
/// rendering stands here is what comes back.
#[verifier::rlimit(100)]
fn parse_weight_range(b: &Vec<u8>, pos: usize) -> (r: Option<(WeightRangeEnc, usize)>)
    requires
        pos <= b@.len(),
    ensures
        r matches Some(wp) ==> pos < wp.1 <= b@.len() && b@.subrange(pos as int, wp.1 as int)
            == spec_ser_weight_range(wp.0),
        forall|w0: WeightRangeEnc|
            #[trigger] spec_wr_at(b@, pos as int, w0) ==> (r matches Some(wp) && wp.0.lower@
                == w0.lower@ && wp.0.upper@ == w0.upper@ && wp.0.ln@ == w0.ln@ && wp.0.ld@
                == w0.ld@ && wp.0.un@ == w0.un@ && wp.0.ud@ == w0.ud@ && wp.1 == pos
                + spec_ser_weight_range(w0).len()),
{
    proof {
        assert forall|w0: WeightRangeEnc| spec_wr_at(b@, pos as int, w0) implies b@[pos as int]
            == 123 && pos < b@.len() by {
            lemma_wr_units(b@, pos as int, w0);
        }
    }
    if pos >= b.len() || b[pos] != 123 {
        return None;
    }
    let p0: usize = pos + 1;
    let lower = match parse_wr_field(b, p0, &key_lower_vec(), 44) {
        Some(tp) => tp,
        None => {
            proof {
                assert forall|w0: WeightRangeEnc| spec_wr_at(b@, pos as int, w0) implies false by {
                    lemma_wr_units(b@, pos as int, w0);
                }
            }
            return None;
        },
    };
    proof {
        assert forall|w0: WeightRangeEnc| spec_wr_at(b@, pos as int, w0) implies lower.0@
            == w0.lower@ && lower.1 == pos + 1 + key_lower().len() + w0.lower@.len() + 1 by {
            lemma_wr_units(b@, pos as int, w0);
        }
    }
    let upper = match parse_wr_field(b, lower.1, &key_upper_vec(), 44) {
        Some(tp) => tp,
        None => {
            proof {
                assert forall|w0: WeightRangeEnc| spec_wr_at(b@, pos as int, w0) implies false by {
                    lemma_wr_units(b@, pos as int, w0);
                }
            }
            return None;
        },
    };
    proof {
        assert forall|w0: WeightRangeEnc| spec_wr_at(b@, pos as int, w0) implies upper.0@
            == w0.upper@ && upper.1 == lower.1 + key_upper().len() + w0.upper@.len() + 1 by {
            lemma_wr_units(b@, pos as int, w0);
        }
    }
    let ln = match parse_wr_field(b, upper.1, &key_ln_vec(), 44) {
        Some(tp) => tp,
        None => {
            proof {
                assert forall|w0: WeightRangeEnc| spec_wr_at(b@, pos as int, w0) implies false by {
                    lemma_wr_units(b@, pos as int, w0);
                }
            }
            return None;
        },
    };
    proof {
        assert forall|w0: WeightRangeEnc| spec_wr_at(b@, pos as int, w0) implies ln.0@ == w0.ln@
            && ln.1 == upper.1 + key_ln().len() + w0.ln@.len() + 1 by {
            lemma_wr_units(b@, pos as int, w0);
        }
    }
    let ld = match parse_wr_field(b, ln.1, &key_ld_vec(), 44) {
        Some(tp) => tp,
        None => {
            proof {
                assert forall|w0: WeightRangeEnc| spec_wr_at(b@, pos as int, w0) implies false by {
                    lemma_wr_units(b@, pos as int, w0);
                }
            }
            return None;
        },
    };
    proof {
        assert forall|w0: WeightRangeEnc| spec_wr_at(b@, pos as int, w0) implies ld.0@ == w0.ld@
            && ld.1 == ln.1 + key_ld().len() + w0.ld@.len() + 1 by {
            lemma_wr_units(b@, pos as int, w0);
        }
    }
    let un = match parse_wr_field(b, ld.1, &key_un_vec(), 44) {
        Some(tp) => tp,
        None => {
            proof {
                assert forall|w0: WeightRangeEnc| spec_wr_at(b@, pos as int, w0) implies false by {
                    lemma_wr_units(b@, pos as int, w0);
                }
            }
            return None;
        },
    };
    proof {
        assert forall|w0: WeightRangeEnc| spec_wr_at(b@, pos as int, w0) implies un.0@ == w0.un@
            && un.1 == ld.1 + key_un().len() + w0.un@.len() + 1 by {
            lemma_wr_units(b@, pos as int, w0);
        }
    }
    let ud = match parse_wr_field(b, un.1, &key_ud_vec(), 125) {
        Some(tp) => tp,
        None => {
            proof {
                assert forall|w0: WeightRangeEnc| spec_wr_at(b@, pos as int, w0) implies false by {
                    lemma_wr_units(b@, pos as int, w0);
                }
            }
            return None;
        },
    };
    let enc = WeightRangeEnc {
        lower: lower.0,
        upper: upper.0,
        ln: ln.0,
        ld: ld.0,
        un: un.0,
        ud: ud.0,
    };
    proof {
        assert(b@.subrange(pos as int, ud.1 as int) =~= seq![123u8] + b@.subrange(
            p0 as int,
            lower.1 as int,
        ) + b@.subrange(lower.1 as int, upper.1 as int) + b@.subrange(upper.1 as int, ln.1 as int)
            + b@.subrange(ln.1 as int, ld.1 as int) + b@.subrange(ld.1 as int, un.1 as int)
            + b@.subrange(un.1 as int, ud.1 as int));
        assert(spec_ser_weight_range(enc) =~= seq![123u8] + (key_lower() + enc.lower@ + seq![44u8])
            + (key_upper() + enc.upper@ + seq![44u8]) + (key_ln() + enc.ln@ + seq![44u8]) + (
        key_ld() + enc.ld@ + seq![44u8]) + (key_un() + enc.un@ + seq![44u8]) + (key_ud() + enc.ud@
            + seq![125u8]));
        assert forall|w0: WeightRangeEnc| spec_wr_at(b@, pos as int, w0) implies ud.0@ == w0.ud@
            && ud.1 == pos + spec_ser_weight_range(w0).len() by {
            lemma_wr_units(b@, pos as int, w0);
            assert(spec_ser_weight_range(w0) =~= seq![123u8] + (key_lower() + w0.lower@
                + seq![44u8]) + (key_upper() + w0.upper@ + seq![44u8]) + (key_ln() + w0.ln@
                + seq![44u8]) + (key_ld() + w0.ld@ + seq![44u8]) + (key_un() + w0.un@ + seq![44u8])
                + (key_ud() + w0.ud@ + seq![125u8]));
        }
    }
    Some((enc, ud.1))
}

/// Whether an envelope can cross the transport intact: every weight-bound
/// token is free of separators. The artifact payloads carry no such
/// condition.
pub open spec fn spec_wf_envelope(e: Envelope) -> bool {
    spec_wf_wr(e.weight_range)
}

/// Whether two envelopes carry the same content, field by field.
pub open spec fn spec_env_eq(a: Envelope, c: Envelope) -> bool {
    &&& (a.json_doc is Some <==> c.json_doc is Some)
    &&& (a.json_doc is Some ==> a.json_doc->0@ == c.json_doc->0@)
    &&& (a.html is Some <==> c.html is Some)
    &&& (a.html is Some ==> a.html->0@ == c.html->0@)
    &&& a.subgraph@ == c.subgraph@
    &&& a.weight_range.lower@ == c.weight_range.lower@
    &&& a.weight_range.upper@ == c.weight_range.upper@
    &&& a.weight_range.ln@ == c.weight_range.ln@
    &&& a.weight_range.ld@ == c.weight_range.ld@
    &&& a.weight_range.un@ == c.weight_range.un@
    &&& a.weight_range.ud@ == c.weight_range.ud@
}

/// What stands where in a rendered envelope: the opening brace, the keyed
/// subgraph, the keyed weight bound, then the optional artifacts, the
/// page quoted and escaped and the document running to the final brace.
#[verifier::rlimit(100)]
#[verifier::spinoff_prover]
proof fn lemma_env_units(b: Seq<u8>, e0: Envelope)
    requires
        spec_wf_envelope(e0),
        b == spec_ser_envelope(e0),
    ensures
        ({
            let sublen = spec_ser_subgraph(e0.subgraph@).len() as int;
            let wrlen = spec_ser_weight_range(e0.weight_range).len() as int;
            let aw = 28 + sublen + wrlen;
            &&& b.len() >= 1 && b[0] == 123
            &&& 12 <= b.len() && b.subrange(1, 12) == key_subgraph()
            &&& spec_sub_at(b, 12, e0.subgraph@)
            &&& 12 + sublen < b.len() && b[12 + sublen] == 44
            &&& b.subrange(13 + sublen, 28 + sublen) == key_weight_range()
            &&& spec_wr_at(b, 28 + sublen, e0.weight_range)
            &&& (e0.html is None && e0.json_doc is None ==> aw + 1 == b.len() && b[aw] == 125)
            &&& (e0.html is Some ==> aw + 8 < b.len() && b[aw] == 44 && b.subrange(
                aw + 1,
                aw + 8,
            ) == key_html() && b[aw + 8] == 34 && spec_esc_at(b, aw + 9, e0.html->0@))
            &&& (e0.html is Some && e0.json_doc is None ==> {
                let ah = aw + 10 + spec_escape(e0.html->0@).len() as int;
                ah + 1 == b.len() && b[ah] == 125
            })
            &&& (e0.html is Some && e0.json_doc is Some ==> {
                let ah = aw + 10 + spec_escape(e0.html->0@).len() as int;
                &&& ah + 8 <= b.len() && b[ah] == 44
                &&& b.subrange(ah + 1, ah + 8) == key_json()
                &&& b.len() >= 1 && b[b.len() - 1] == 125
                &&& b.subrange(ah + 8, b.len() - 1) == e0.json_doc->0@
            })
            &&& (e0.html is None && e0.json_doc is Some ==> {
                &&& aw + 8 <= b.len() && b[aw] == 44
                &&& b.subrange(aw + 1, aw + 8) == key_json()
                &&& b.len() >= 1 && b[b.len() - 1] == 125
                &&& b.subrange(aw + 8, b.len() - 1) == e0.json_doc->0@
            })
        }),
{
    let sub = spec_ser_subgraph(e0.subgraph@);
    let wr = spec_ser_weight_range(e0.weight_range);
    let head = seq![123u8] + key_subgraph() + sub + seq![44u8] + key_weight_range() + wr;
    let hpart: Seq<u8> = if e0.html is Some {
        seq![44u8] + key_html() + seq![34u8] + spec_escape(e0.html->0@) + seq![34u8]
    } else {
        Seq::empty()
    };
    let jpart: Seq<u8> = if e0.json_doc is Some {
        seq![44u8] + key_json() + e0.json_doc->0@
    } else {
        Seq::empty()
    };
    assert(b =~= head + hpart + jpart + seq![125u8]);
    let sublen = sub.len() as int;
    let wrlen = wr.len() as int;
    let aw = 28 + sublen + wrlen;
    assert(head.len() == aw);
    assert forall|j: int| 0 <= j < b.len() implies b[j] == #[trigger] (head + hpart + jpart
        + seq![125u8])[j] by {}
    assert(b[0] == 123);
    assert forall|i: int| 0 <= i < 11 implies b[1 + i] == #[trigger] key_subgraph()[i] by {
        assert(head[1 + i] == key_subgraph()[i]);
    }
    assert(b.subrange(1, 12) =~= key_subgraph());
    assert forall|i: int| 0 <= i < sublen implies b[12 + i] == #[trigger] sub[i] by {
        assert(head[12 + i] == sub[i]);
    }
    assert(b.subrange(12, 12 + sublen) =~= sub);
    assert(head[12 + sublen] == 44);
    assert forall|i: int| 0 <= i < 15 implies b[13 + sublen + i]
        == #[trigger] key_weight_range()[i] by {
        assert(head[13 + sublen + i] == key_weight_range()[i]);
    }
    assert(b.subrange(13 + sublen, 28 + sublen) =~= key_weight_range());
    assert forall|i: int| 0 <= i < wrlen implies b[28 + sublen + i] == #[trigger] wr[i] by {
        assert(head[28 + sublen + i] == wr[i]);
    }
    assert(b.subrange(28 + sublen, 28 + sublen + wrlen) =~= wr);
    if e0.html is None && e0.json_doc is None {
        assert(b.len() == aw + 1);
        assert(b[aw] == 125);
    }
    if e0.html is Some {
        let esc = spec_escape(e0.html->0@);
        assert(b[aw] == (hpart + jpart + seq![125u8])[0]);
        assert forall|i: int| 0 <= i < 7 implies b[aw + 1 + i] == #[trigger] key_html()[i] by {
            assert((hpart + jpart + seq![125u8])[1 + i] == key_html()[i]);
        }
        assert(b.subrange(aw + 1, aw + 8) =~= key_html());
        assert(b[aw + 8] == (hpart + jpart + seq![125u8])[8]);
        assert forall|i: int| 0 <= i < esc.len() implies b[aw + 9 + i] == #[trigger] esc[i] by {
            assert((hpart + jpart + seq![125u8])[9 + i] == esc[i]);
        }
        assert(b.subrange(aw + 9, aw + 9 + esc.len()) =~= esc);
        assert(b[aw + 9 + esc.len() as int] == (hpart + jpart + seq![125u8])[9 + esc.len() as int]);
        let ah = aw + 10 + esc.len() as int;
        if e0.json_doc is None {
            assert(b.len() == ah + 1);
            assert(b[ah] == 125);
        } else {
            let doc = e0.json_doc->0@;
            assert(b[ah] == (jpart + seq![125u8])[0]);
            assert forall|i: int| 0 <= i < 7 implies b[ah + 1 + i] == #[trigger] key_json()[i] by {
                assert((jpart + seq![125u8])[1 + i] == key_json()[i]);
            }
            assert(b.subrange(ah + 1, ah + 8) =~= key_json());
            assert forall|i: int| 0 <= i < doc.len() implies b[ah + 8 + i] == #[trigger] doc[i] by {
                assert((jpart + seq![125u8])[8 + i] == doc[i]);
            }
            assert(b.subrange(ah + 8, b.len() - 1) =~= doc);
            assert(b[b.len() - 1] == 125);
        }
    }
    if e0.html is None && e0.json_doc is Some {
        let doc = e0.json_doc->0@;
        assert(b[aw] == (jpart + seq![125u8])[0]);
        assert forall|i: int| 0 <= i < 7 implies b[aw + 1 + i] == #[trigger] key_json()[i] by {
            assert((jpart + seq![125u8])[1 + i] == key_json()[i]);
        }
        assert(b.subrange(aw + 1, aw + 8) =~= key_json());
        assert forall|i: int| 0 <= i < doc.len() implies b[aw + 8 + i] == #[trigger] doc[i] by {
            assert((jpart + seq![125u8])[8 + i] == doc[i]);
        }
        assert(b.subrange(aw + 8, b.len() - 1) =~= doc);
        assert(b[b.len() - 1] == 125);
    }
}

/// Decode a transport text back into its envelope. Strict: it accepts
/// exactly the texts this library's renderer produces, and what it accepts
/// it reproduces — the returned envelope renders to the input, byte for
/// byte, so nothing was lost or altered in transport.
/// What stands after the mandatory members of a rendered envelope,
/// from position `aw` on: the closing brace at once, or the page and the
/// document in turn.
pub open spec fn spec_tail_layout(b: Seq<u8>, aw: int, e0: Envelope) -> bool {
    &&& (e0.html is None && e0.json_doc is None ==> aw + 1 == b.len() && b[aw] == 125)
    &&& (e0.html is Some ==> aw + 8 < b.len() && b[aw] == 44 && b.subrange(aw + 1, aw + 8)
        == key_html() && b[aw + 8] == 34 && spec_esc_at(b, aw + 9, e0.html->0@))
    &&& (e0.html is Some && e0.json_doc is None ==> aw + 10 + spec_escape(e0.html->0@).len() + 1
        == b.len() && b[aw + 10 + spec_escape(e0.html->0@).len()] == 125)
    &&& (e0.html is Some && e0.json_doc is Some ==> {
        let ah = aw + 10 + spec_escape(e0.html->0@).len() as int;
        &&& ah + 8 <= b.len() && b[ah] == 44
        &&& b.subrange(ah + 1, ah + 8) == key_json()
        &&& b.len() >= 1 && b[b.len() - 1] == 125
        &&& b.subrange(ah + 8, b.len() - 1) == e0.json_doc->0@
    })
    &&& (e0.html is None && e0.json_doc is Some ==> {
        &&& aw + 8 <= b.len() && b[aw] == 44
        &&& b.subrange(aw + 1, aw + 8) == key_json()
        &&& b.len() >= 1 && b[b.len() - 1] == 125
        &&& b.subrange(aw + 8, b.len() - 1) == e0.json_doc->0@
    })
}

/// Read the optional artifacts and the closing brace, the mandatory
/// members having been read into `sub` and `wr` already, whose rendering
/// fills `b` up to `start`.
#[verifier::rlimit(100)]
#[verifier::spinoff_prover]
fn parse_artifacts(
    b: &Vec<u8>,
    start: usize,
    sub: Vec<u64>,
    wr: WeightRangeEnc,
    Ghost(head): Ghost<Seq<u8>>,
) -> (r: Option<Envelope>)
    requires
        start <= b@.len(),
        head == seq![123u8] + key_subgraph() + spec_ser_subgraph(sub@) + seq![44u8]
            + key_weight_range() + spec_ser_weight_range(wr),
        b@.subrange(0, start as int) == head,
        start == head.len(),
        forall|e0: Envelope|
            spec_wf_envelope(e0) && b@ == #[trigger] spec_ser_envelope(e0) ==> (e0.subgraph@
                == sub@ && e0.weight_range.lower@ == wr.lower@ && e0.weight_range.upper@
                == wr.upper@ && e0.weight_range.ln@ == wr.ln@ && e0.weight_range.ld@ == wr.ld@
                && e0.weight_range.un@ == wr.un@ && e0.weight_range.ud@ == wr.ud@ && start == 28
                + spec_ser_subgraph(e0.subgraph@).len() + spec_ser_weight_range(
                e0.weight_range,
            ).len()),
    ensures
        r matches Some(e) ==> b@ == spec_ser_envelope(e),
        forall|e0: Envelope|
            spec_wf_envelope(e0) && b@ == #[trigger] spec_ser_envelope(e0) ==> (r matches Some(e)
                && spec_env_eq(e, e0)),
{
    proof {
        assert forall|e0: Envelope|
            spec_wf_envelope(e0) && b@ == spec_ser_envelope(e0) implies spec_tail_layout(
            b@,
            start as int,
            e0,
        ) by {
            lemma_env_units(b@, e0);
        }
    }
    let mut p: usize = start;
    if p >= b.len() {
        proof {
            assert forall|e0: Envelope|
                spec_wf_envelope(e0) && b@ == spec_ser_envelope(e0) implies false by {
                assert(spec_tail_layout(b@, start as int, e0));
            }
        }
        return None;
    }
    if b[p] == 125 {
        if p + 1 != b.len() {
            proof {
                assert forall|e0: Envelope|
                    spec_wf_envelope(e0) && b@ == spec_ser_envelope(e0) implies false by {
                    assert(spec_tail_layout(b@, start as int, e0));
                }
            }
            return None;
        }
        let e = Envelope { json_doc: None, html: None, subgraph: sub, weight_range: wr };
        proof {
            assert(b@ =~= b@.subrange(0, p as int) + seq![125u8]);
            assert(spec_ser_envelope(e) =~= head + Seq::<u8>::empty() + Seq::<u8>::empty()
                + seq![125u8]);
            assert forall|e0: Envelope|
                spec_wf_envelope(e0) && b@ == spec_ser_envelope(e0) implies spec_env_eq(e, e0) by {
                assert(spec_tail_layout(b@, start as int, e0));
            }
        }
        return Some(e);
    }
    if b[p] != 44 {
        proof {
            assert forall|e0: Envelope|
                spec_wf_envelope(e0) && b@ == spec_ser_envelope(e0) implies false by {
                assert(spec_tail_layout(b@, start as int, e0));
            }
        }
        return None;
    }
    let mut html: Option<Vec<u8>> = None;
    let ghost mut html_part: Seq<u8> = Seq::empty();
    match eat_lit(b, p + 1, &key_html_vec()) {
        Some(hk) => {
            proof {
                assert forall|e0: Envelope|
                    spec_wf_envelope(e0) && b@ == spec_ser_envelope(e0) implies e0.html is Some
                    && hk < b@.len() && b@[hk as int] == 34 && spec_esc_at(
                    b@,
                    (hk + 1) as int,
                    e0.html->0@,
                ) by {
                    assert(spec_tail_layout(b@, start as int, e0));
                    if e0.html is None && e0.json_doc is Some {
                        assert(b@.subrange((p + 1) as int, (p + 8) as int)[1] == b@[p + 2]);
                        assert(key_json()[1] == 106);
                        assert(key_html()[1] == 104);
                        assert(false);
                    }
                }
            }
            if hk >= b.len() || b[hk] != 34 {
                return None;
            }
            let body = match unescape_body(b, hk + 1) {
                Some(hp) => hp,
                None => {
                    return None;
                },
            };
            proof {
                html_part = seq![44u8] + key_html() + seq![34u8] + spec_escape(body.0@)
                    + seq![34u8];
                assert(b@.subrange(p as int, (body.1 + 1) as int) =~= seq![44u8] + b@.subrange(
                    (p + 1) as int,
                    hk as int,
                ) + seq![34u8] + b@.subrange((hk + 1) as int, body.1 as int) + seq![34u8]);
                assert(b@.subrange(p as int, (body.1 + 1) as int) == html_part);
                assert forall|e0: Envelope|
                    spec_wf_envelope(e0) && b@ == spec_ser_envelope(e0) implies e0.html is Some
                    && body.0@ == e0.html->0@ && body.1 + 1 == 38 + spec_ser_subgraph(
                    e0.subgraph@,
                ).len() + spec_ser_weight_range(e0.weight_range).len() + spec_escape(
                    e0.html->0@,
                ).len() by {
                    assert(spec_tail_layout(b@, start as int, e0));
                    assert(spec_esc_at(b@, (hk + 1) as int, e0.html->0@));
                }
            }
            html = Some(body.0);
            p = body.1 + 1;
            if p >= b.len() {
                proof {
                    assert forall|e0: Envelope|
                        spec_wf_envelope(e0) && b@ == spec_ser_envelope(e0) implies false by {
                        assert(spec_tail_layout(b@, start as int, e0));
                    }
                }
                return None;
            }
            if b[p] == 125 {
                if p + 1 != b.len() {
                    proof {
                        assert forall|e0: Envelope|
                            spec_wf_envelope(e0) && b@ == spec_ser_envelope(e0) implies false by {
                            assert(spec_tail_layout(b@, start as int, e0));
                        }
                    }
                    return None;
                }
                let e = Envelope { json_doc: None, html, subgraph: sub, weight_range: wr };
                proof {
                    assert(b@ =~= b@.subrange(0, start as int) + b@.subrange(start as int, p as int)
                        + seq![125u8]);
                    assert(spec_ser_envelope(e) =~= head + html_part + Seq::<u8>::empty()
                        + seq![125u8]);
                    assert forall|e0: Envelope|
                        spec_wf_envelope(e0) && b@ == spec_ser_envelope(e0) implies spec_env_eq(
                        e,
                        e0,
                    ) by {
                        assert(spec_tail_layout(b@, start as int, e0));
                    }
                }
                return Some(e);
            }
            if b[p] != 44 {
                proof {
                    assert forall|e0: Envelope|
                        spec_wf_envelope(e0) && b@ == spec_ser_envelope(e0) implies false by {
                        assert(spec_tail_layout(b@, start as int, e0));
                    }
                }
                return None;
            }
        },
        None => {
            proof {
                assert forall|e0: Envelope|
                    spec_wf_envelope(e0) && b@ == spec_ser_envelope(e0) implies e0.html
                    is None by {
                    assert(spec_tail_layout(b@, start as int, e0));
                }
            }
        },
    }
    let jk = match eat_lit(b, p + 1, &key_json_vec()) {
        Some(p2) => p2,
        None => {
            proof {
                assert forall|e0: Envelope|
                    spec_wf_envelope(e0) && b@ == spec_ser_envelope(e0) implies false by {
                    assert(spec_tail_layout(b@, start as int, e0));
                }
            }
            return None;
        },
    };
    if b.len() < 1 || jk > b.len() - 1 {
        proof {
            assert forall|e0: Envelope|
                spec_wf_envelope(e0) && b@ == spec_ser_envelope(e0) implies false by {
                assert(spec_tail_layout(b@, start as int, e0));
            }
        }
        return None;
    }
    if b[b.len() - 1] != 125 {
        proof {
            assert forall|e0: Envelope|
                spec_wf_envelope(e0) && b@ == spec_ser_envelope(e0) implies false by {
                assert(spec_tail_layout(b@, start as int, e0));
            }
        }
        return None;
    }
    let doc = copy_range(b, jk, b.len() - 1);
    let e = Envelope { json_doc: Some(doc), html, subgraph: sub, weight_range: wr };
    proof {
        let json_part = seq![44u8] + key_json() + e.json_doc->0@;
        assert(b@.subrange(p as int, (b@.len() - 1) as int) =~= seq![44u8] + b@.subrange(
            (p + 1) as int,
            jk as int,
        ) + b@.subrange(jk as int, (b@.len() - 1) as int));
        assert(b@.subrange(p as int, (b@.len() - 1) as int) == json_part);
        assert(b@ =~= b@.subrange(0, start as int) + b@.subrange(start as int, p as int)
            + b@.subrange(p as int, (b@.len() - 1) as int) + seq![125u8]);
        assert(b@.subrange(start as int, p as int) == html_part);
        assert(spec_ser_envelope(e) =~= head + html_part + json_part + seq![125u8]);
        assert forall|e0: Envelope|
            spec_wf_envelope(e0) && b@ == spec_ser_envelope(e0) implies spec_env_eq(e, e0) by {
            lemma_env_units(b@, e0);
        }
    }
    Some(e)
}

#[verifier::rlimit(100)]
#[verifier::spinoff_prover]
pub fn parse_envelope(b: &Vec<u8>) -> (r: Option<Envelope>)
    ensures
        r matches Some(e) ==> b@ == spec_ser_envelope(e),
        forall|e0: Envelope|
            spec_wf_envelope(e0) && b@ == #[trigger] spec_ser_envelope(e0) ==> (r matches Some(e)
                && spec_env_eq(e, e0)),
{
    if b.len() == 0 || b[0] != 123 {
        proof {
            assert forall|e0: Envelope|
                spec_wf_envelope(e0) && b@ == spec_ser_envelope(e0) implies false by {
                lemma_env_units(b@, e0);
            }
        }
        return None;
    }
    let p0 = match eat_lit(b, 1, &key_subgraph_vec()) {
        Some(p) => p,
        None => {
            proof {
                assert forall|e0: Envelope|
                    spec_wf_envelope(e0) && b@ == spec_ser_envelope(e0) implies false by {
                    lemma_env_units(b@, e0);
                }
            }
            return None;
        },
    };
    proof {
        assert forall|e0: Envelope|
            spec_wf_envelope(e0) && b@ == spec_ser_envelope(e0) implies spec_sub_at(
            b@,
            p0 as int,
            e0.subgraph@,
        ) by {
            lemma_env_units(b@, e0);
        }
    }
    let sub = match parse_subgraph(b, p0) {
        Some(vp) => vp,
        None => {
            return None;
        },
    };
    proof {
        assert forall|e0: Envelope|
            spec_wf_envelope(e0) && b@ == spec_ser_envelope(e0) implies sub.0@ == e0.subgraph@
            && sub.1 == 12 + spec_ser_subgraph(e0.subgraph@).len() && sub.1 < b@.len()
            && b@[sub.1 as int] == 44 by {
            lemma_env_units(b@, e0);
        }
    }
    if sub.1 >= b.len() || b[sub.1] != 44 {
        return None;
    }
    let p1 = match eat_lit(b, sub.1 + 1, &key_weight_range_vec()) {
        Some(p) => p,
        None => {
            proof {
                assert forall|e0: Envelope|
                    spec_wf_envelope(e0) && b@ == spec_ser_envelope(e0) implies false by {
                    lemma_env_units(b@, e0);
                }
            }
            return None;
        },
    };
    proof {
        assert forall|e0: Envelope|
            spec_wf_envelope(e0) && b@ == spec_ser_envelope(e0) implies spec_wr_at(
            b@,
            p1 as int,
            e0.weight_range,
        ) by {
            lemma_env_units(b@, e0);
        }
    }
    let wr = match parse_weight_range(b, p1) {
        Some(wp) => wp,
        None => {
            return None;
        },
    };
    let ghost head = seq![123u8] + key_subgraph() + spec_ser_subgraph(sub.0@) + seq![44u8]
        + key_weight_range() + spec_ser_weight_range(wr.0);
    proof {
        assert(b@.subrange(0, wr.1 as int) =~= seq![123u8] + b@.subrange(1, p0 as int)
            + b@.subrange(p0 as int, sub.1 as int) + seq![44u8] + b@.subrange(
            (sub.1 + 1) as int,
            p1 as int,
        ) + b@.subrange(p1 as int, wr.1 as int));
        assert(b@.subrange(0, wr.1 as int) == head);
        assert forall|e0: Envelope|
            spec_wf_envelope(e0) && b@ == spec_ser_envelope(e0) implies wr.0.lower@
            == e0.weight_range.lower@ && wr.0.upper@ == e0.weight_range.upper@ && wr.0.ln@
            == e0.weight_range.ln@ && wr.0.ld@ == e0.weight_range.ld@ && wr.0.un@
            == e0.weight_range.un@ && wr.0.ud@ == e0.weight_range.ud@ && wr.1 == 28
            + spec_ser_subgraph(e0.subgraph@).len() + spec_ser_weight_range(
            e0.weight_range,
        ).len() by {
            lemma_env_units(b@, e0);
        }
    }
    proof {
        assert forall|e0: Envelope|
            spec_wf_envelope(e0) && b@ == spec_ser_envelope(e0) implies e0.subgraph@ == sub.0@
            && e0.weight_range.lower@ == wr.0.lower@ && e0.weight_range.upper@ == wr.0.upper@
            && e0.weight_range.ln@ == wr.0.ln@ && e0.weight_range.ld@ == wr.0.ld@
            && e0.weight_range.un@ == wr.0.un@ && e0.weight_range.ud@ == wr.0.ud@ && wr.1 == 28
            + spec_ser_subgraph(e0.subgraph@).len() + spec_ser_weight_range(
            e0.weight_range,
        ).len() by {}
    }
    parse_artifacts(b, wr.1, sub.0, wr.0, Ghost(head))
}

} // verus!
