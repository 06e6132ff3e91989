//! Which tensors the weights of a model are loaded from.

use vstd::prelude::*;

use super::spec::SpecView;
use super::weights::{
    bind_all, bind_gate_up, bind_layer, bind_matrix, bind_moe, bind_named, bind_qkv, bind_required, bind_rows,
    bind_shexp, bind_vector, blk_name, BindView, LoadStep,
};
use crate::device::{BufferId, WeightId};
use crate::gguf::model::ModelView;

verus! {

/// The matrices among the steps, by their numbers.
pub open spec fn matrices(s: Seq<LoadStep>) -> Seq<LoadStep> {
    s.filter(|x: LoadStep| x is Matrix)
}

/// The vectors among the steps, by their numbers.
pub open spec fn vectors(s: Seq<LoadStep>) -> Seq<LoadStep> {
    s.filter(|x: LoadStep| x is Vector)
}

/// Whether the next numbers are those that come after what was loaded.
#[verifier::opaque]
pub open spec fn numbered(b: BindView) -> bool {
    &&& matrices(b.steps).len() == b.next_weight
    &&& vectors(b.steps).len() == b.next_buffer
    &&& matrices(b.steps).len() <= b.steps.len()
    &&& vectors(b.steps).len() <= b.steps.len()
}

/// Whether `r` has all that `b` has, and at most `k` steps more.
#[verifier::opaque]
pub open spec fn goes_on(b: BindView, r: BindView, k: nat) -> bool {
    let (mb, mr) = (matrices(b.steps), matrices(r.steps));
    let (vb, vr) = (vectors(b.steps), vectors(r.steps));
    &&& numbered(r)
    &&& b.steps.len() <= r.steps.len() <= b.steps.len() + k
    &&& mb.len() <= mr.len()
    &&& vb.len() <= vr.len()
    &&& forall|i: int| 0 <= i < mb.len() ==> #[trigger] mr[i] == mb[i]
    &&& forall|i: int| 0 <= i < vb.len() ==> #[trigger] vr[i] == vb[i]
    &&& r.failed is None ==> b.failed is None
}

/// Whether matrix `w` is the one of the first of these names that the file has.
#[verifier::opaque]
pub open spec fn holds_matrix(m: ModelView, b: BindView, w: WeightId, names: Seq<Seq<char>>) -> bool {
    &&& w.0 < matrices(b.steps).len()
    &&& exists|k: int|
        0 <= k < names.len() && (#[trigger] m.has(names[k])) && (forall|j: int|
            0 <= j < k ==> !m.has(#[trigger] names[j])) && matrices(b.steps)[w.0 as int] == ({
            let t = m.tensor(names[k])->0;
            LoadStep::Matrix {
                start: (m.data_offset + t.offset) as u64,
                len: t.bytes() as u64,
                dtype: t.dtype,
                rows: t.n_rows() as u64,
                cols: t.n_cols() as u64,
            }
        })
}

/// Whether vector `v` is the one of the first of these names that the file has.
#[verifier::opaque]
pub open spec fn holds_vector(m: ModelView, b: BindView, v: BufferId, names: Seq<Seq<char>>) -> bool {
    &&& v.0 < vectors(b.steps).len()
    &&& exists|k: int|
        0 <= k < names.len() && (#[trigger] m.has(names[k])) && (forall|j: int|
            0 <= j < k ==> !m.has(#[trigger] names[j])) && vectors(b.steps)[v.0 as int] == ({
            let t = m.tensor(names[k])->0;
            LoadStep::Vector {
                start: (m.data_offset + t.offset) as u64,
                len: t.bytes() as u64,
                dtype: t.dtype,
                rows: t.n_rows() as u64,
                cols: t.n_cols() as u64,
            }
        })
}

/// Whether a vector is there just where the file has one of these names, and is that one.
#[verifier::opaque]
pub open spec fn may_hold(
    m: ModelView,
    b: BindView,
    v: Option<BufferId>,
    names: Seq<Seq<char>>,
) -> bool {
    match v {
        Some(x) => holds_vector(m, b, x, names),
        None => forall|j: int| 0 <= j < names.len() ==> !m.has(#[trigger] names[j]),
    }
}

proof fn pushed(s: Seq<LoadStep>, x: LoadStep)
    ensures
        x is Matrix ==> matrices(s.push(x)) == matrices(s).push(x) && vectors(s.push(x)) == vectors(
            s,
        ),
        x is Vector ==> vectors(s.push(x)) == vectors(s).push(x) && matrices(s.push(x)) == matrices(
            s,
        ),
{
    reveal(Seq::filter);
    assert(s.push(x).drop_last() =~= s);
    assert(s.push(x).last() == x);
}

proof fn first_is_present(m: ModelView, names: Seq<Seq<char>>, from: nat)
    ensures
        match m.first_present(names, from) {
            Some(k) => from <= k < names.len() && m.has(names[k as int]) && forall|j: int|
                from <= j < k ==> !m.has(#[trigger] names[j]),
            None => forall|j: int| from <= j < names.len() ==> !m.has(#[trigger] names[j]),
        },
    decreases names.len() - from,
{
    if from < names.len() && !m.has(names[from as int]) {
        first_is_present(m, names, from + 1);
    }
}

proof fn vector_goes_on(m: ModelView, b: BindView, names: Seq<Seq<char>>)
    requires
        numbered(b),
        b.steps.len() < u32::MAX,
    ensures
        ({
            let (v, r) = bind_vector(m, b, names);
            &&& goes_on(b, r, 1)
            &&& numbered(r)
            &&& r.steps.len() <= b.steps.len() + 1
            &&& r.failed is None ==> b.failed is None
            &&& r.failed is None ==> may_hold(m, r, v, names)
        }),
{
    reveal(numbered);
    reveal(goes_on);
    reveal(holds_matrix);
    reveal(holds_vector);
    reveal(may_hold);
    first_is_present(m, names, 0);
    match m.first_present(names, 0) {
        Some(k) => {
            assert(m.has(names[k as int]));
            pushed(b.steps, super::weights::vector_step(m, m.tensor(names[k as int])->0));
        },
        None => {},
    }
}

proof fn matrix_goes_on(m: ModelView, b: BindView, names: Seq<Seq<char>>)
    requires
        numbered(b),
        b.steps.len() < u32::MAX,
    ensures
        ({
            let (w, r) = bind_matrix(m, b, names);
            &&& goes_on(b, r, 1)
            &&& numbered(r)
            &&& r.steps.len() <= b.steps.len() + 1
            &&& r.failed is None ==> b.failed is None
            &&& r.failed is None ==> match w {
                Some(x) => holds_matrix(m, r, x, names),
                None => forall|j: int| 0 <= j < names.len() ==> !m.has(#[trigger] names[j]),
            }
        }),
        ({
            let (w, r) = bind_required(m, b, names);
            &&& goes_on(b, r, 1)
            &&& numbered(r)
            &&& r.steps.len() <= b.steps.len() + 1
            &&& r.failed is None ==> b.failed is None
            &&& r.failed is None ==> holds_matrix(m, r, w, names)
        }),
{
    reveal(numbered);
    reveal(goes_on);
    reveal(holds_matrix);
    reveal(holds_vector);
    reveal(may_hold);
    first_is_present(m, names, 0);
    match m.first_present(names, 0) {
        Some(k) => {
            assert(m.has(names[k as int]));
            pushed(b.steps, super::weights::matrix_step(m, m.tensor(names[k as int])->0));
        },
        None => {},
    }
}

proof fn named_goes_on(m: ModelView, b: BindView, names: Seq<Seq<char>>, missing: Seq<char>)
    requires
        numbered(b),
        b.steps.len() < u32::MAX,
    ensures
        ({
            let (w, r) = bind_named(m, b, names, missing);
            &&& goes_on(b, r, 1)
            &&& numbered(r)
            &&& r.steps.len() <= b.steps.len() + 1
            &&& r.failed is None ==> b.failed is None
            &&& r.failed is None ==> holds_matrix(m, r, w, names)
        }),
{
    reveal(numbered);
    reveal(goes_on);
    reveal(holds_matrix);
    reveal(holds_vector);
    reveal(may_hold);
    first_is_present(m, names, 0);
    match m.first_present(names, 0) {
        Some(k) => {
            assert(m.has(names[k as int]));
            pushed(b.steps, super::weights::matrix_step(m, m.tensor(names[k as int])->0));
        },
        None => {},
    }
}

/// What is held stays held as loading goes on.
proof fn still_held(m: ModelView, b: BindView, r: BindView, k: nat, names: Seq<Seq<char>>)
    requires
        goes_on(b, r, k),
    ensures
        forall|w: WeightId| #[trigger]
            holds_matrix(m, b, w, names) ==> holds_matrix(m, r, w, names),
        forall|v: BufferId| #[trigger]
            holds_vector(m, b, v, names) ==> holds_vector(m, r, v, names),
        forall|v: Option<BufferId>| #[trigger]
            may_hold(m, b, v, names) ==> may_hold(m, r, v, names),
{
    reveal(numbered);
    reveal(goes_on);
    reveal(holds_matrix);
    reveal(holds_vector);
    reveal(may_hold);
}

proof fn on_and_on(a: BindView, b: BindView, c: BindView, j: nat, k: nat)
    requires
        goes_on(a, b, j),
        goes_on(b, c, k),
    ensures
        goes_on(a, c, j + k),
        numbered(c),
        c.steps.len() <= a.steps.len() + j + k,
        c.failed is None ==> a.failed is None,
{
    reveal(numbered);
    reveal(goes_on);
    reveal(holds_matrix);
    reveal(holds_vector);
    reveal(may_hold);
    assert forall|i: int| 0 <= i < matrices(a.steps).len() implies #[trigger] matrices(c.steps)[i]
        == matrices(a.steps)[i] by {
        assert(matrices(b.steps)[i] == matrices(a.steps)[i]);
    }
    assert forall|i: int| 0 <= i < vectors(a.steps).len() implies #[trigger] vectors(c.steps)[i]
        == vectors(a.steps)[i] by {
        assert(vectors(b.steps)[i] == vectors(a.steps)[i]);
    }
}

/// Queries, keys and values are three matrices of the block, each under its own name; where the
/// block has one matrix for all three, they are its rows, queries first, keys next and values last.
pub proof fn queries_keys_and_values_have_their_own(m: ModelView, b: BindView, s: SpecView, i: nat)
    requires
        numbered(b),
        b.steps.len() + 3 < u32::MAX,
    ensures
        ({
            let ((q, k, v), r) = bind_qkv(m, b, s, i);
            &&& goes_on(b, r, 3)
            &&& numbered(r)
            &&& r.steps.len() <= b.steps.len() + 3
            &&& r.failed is None ==> b.failed is None
            &&& r.failed is None && !m.has(blk_name(i, "attn_qkv.weight"@)) ==> holds_matrix(
                m,
                r,
                q,
                seq![blk_name(i, "attn_q.weight"@)],
            ) && holds_matrix(m, r, k, seq![blk_name(i, "attn_k.weight"@)]) && holds_matrix(
                m,
                r,
                v,
                seq![blk_name(i, "attn_v.weight"@)],
            )
            &&& r.failed is None && m.has(blk_name(i, "attn_qkv.weight"@)) && !m.has(
                blk_name(i, "attn_q.weight"@),
            ) ==> {
                let t = m.tensor(blk_name(i, "attn_qkv.weight"@))->0;
                let wide = s.n_heads * s.head_dim;
                let narrow = s.n_kv_heads * s.head_dim;
                let row = t.dtype.bytes_for(t.n_cols());
                let part = |from: int, rows: int|
                    LoadStep::Matrix {
                        start: (m.data_offset + t.offset + from * row) as u64,
                        len: (rows * row) as u64,
                        dtype: t.dtype,
                        rows: rows as u64,
                        cols: t.n_cols() as u64,
                    };
                let all = matrices(r.steps);
                &&& all[q.0 as int] == part(0, wide)
                &&& all[k.0 as int] == part(wide, narrow)
                &&& all[v.0 as int] == part(wide + narrow, narrow)
            }
        }),
{
    reveal(numbered);
    reveal(goes_on);
    reveal(holds_matrix);
    reveal(holds_vector);
    reveal(may_hold);
    let fused = m.tensor(blk_name(i, "attn_qkv.weight"@));
    if fused is Some && !m.has(blk_name(i, "attn_q.weight"@)) {
        let t = fused->0;
        rows_go_on(m, b, t, 0, s.embd_q());
        let (q, b1) = bind_rows(m, b, t, 0, s.embd_q());
        rows_go_on(m, b1, t, s.embd_q(), s.embd_k());
        let (k, b2) = bind_rows(m, b1, t, s.embd_q(), s.embd_k());
        rows_go_on(m, b2, t, s.embd_q() + s.embd_k(), s.embd_k());
        let (v, b3) = bind_rows(m, b2, t, s.embd_q() + s.embd_k(), s.embd_k());
        on_and_on(b1, b2, b3, 1, 1);
        on_and_on(b, b1, b3, 1, 2);
    } else {
        let nq = seq![blk_name(i, "attn_q.weight"@)];
        let nk = seq![blk_name(i, "attn_k.weight"@)];
        let nv = seq![blk_name(i, "attn_v.weight"@)];
        matrix_goes_on(m, b, nq);
        let (q, b1) = bind_required(m, b, nq);
        matrix_goes_on(m, b1, nk);
        let (k, b2) = bind_required(m, b1, nk);
        matrix_goes_on(m, b2, nv);
        let (v, b3) = bind_required(m, b2, nv);
        on_and_on(b1, b2, b3, 1, 1);
        on_and_on(b, b1, b3, 1, 2);
        still_held(m, b1, b3, 2, nq);
        still_held(m, b2, b3, 1, nk);
    }
}

proof fn rows_go_on(
    m: ModelView,
    b: BindView,
    t: crate::gguf::reader::TensorView,
    start: nat,
    count: nat,
)
    requires
        numbered(b),
        b.steps.len() < u32::MAX,
    ensures
        ({
            let (w, r) = bind_rows(m, b, t, start, count);
            &&& goes_on(b, r, 1)
            &&& numbered(r)
            &&& r.steps.len() <= b.steps.len() + 1
            &&& r.failed is None ==> b.failed is None
            &&& r.failed is None ==> w.0 < matrices(r.steps).len() && matrices(r.steps)[w.0 as int]
                == super::weights::rows_step(m, t, start, count)
        }),
{
    reveal(numbered);
    reveal(goes_on);
    reveal(holds_matrix);
    reveal(holds_vector);
    reveal(may_hold);
    pushed(b.steps, super::weights::rows_step(m, t, start, count));
}

/// The gating and the widening projection have a matrix each, under a name of its own; where the
/// block has one for both, gating takes its first half.
pub proof fn gates_have_their_own(m: ModelView, b: BindView, i: nat)
    requires
        numbered(b),
        b.steps.len() + 2 < u32::MAX,
    ensures
        ({
            let ((gate, up), r) = bind_gate_up(m, b, i);
            &&& goes_on(b, r, 2)
            &&& numbered(r)
            &&& r.steps.len() <= b.steps.len() + 2
            &&& r.failed is None ==> b.failed is None
            &&& r.failed is None && !m.has(blk_name(i, "ffn_gate_up.weight"@)) ==> {
                &&& (gate is Some) == m.has(blk_name(i, "ffn_gate.weight"@))
                &&& (up is Some) == m.has(blk_name(i, "ffn_up.weight"@))
                &&& gate is Some ==> holds_matrix(
                    m,
                    r,
                    gate->0,
                    seq![blk_name(i, "ffn_gate.weight"@)],
                )
                &&& up is Some ==> holds_matrix(m, r, up->0, seq![blk_name(i, "ffn_up.weight"@)])
            }
            &&& r.failed is None && m.has(blk_name(i, "ffn_gate_up.weight"@)) ==> {
                let t = m.tensor(blk_name(i, "ffn_gate_up.weight"@))->0;
                let half = t.n_rows() / 2;
                let row = t.dtype.bytes_for(t.n_cols());
                &&& gate is Some && up is Some
                &&& matrices(r.steps)[(gate->0).0 as int]->Matrix_start == (m.data_offset
                    + t.offset + 0 * row) as u64
                &&& matrices(r.steps)[(up->0).0 as int]->Matrix_start == (m.data_offset + t.offset
                    + half * row) as u64
            }
        }),
{
    reveal(numbered);
    reveal(goes_on);
    reveal(holds_matrix);
    reveal(holds_vector);
    reveal(may_hold);
    match m.tensor(blk_name(i, "ffn_gate_up.weight"@)) {
        Some(t) => {
            let half = t.n_rows() / 2;
            rows_go_on(m, b, t, 0, half);
            let (g, b1) = bind_rows(m, b, t, 0, half);
            rows_go_on(m, b1, t, half, half);
            let (u, b2) = bind_rows(m, b1, t, half, half);
            on_and_on(b, b1, b2, 1, 1);
        },
        None => {
            let ng = seq![blk_name(i, "ffn_gate.weight"@)];
            let nu = seq![blk_name(i, "ffn_up.weight"@)];
            matrix_goes_on(m, b, ng);
            let (g, b1) = bind_matrix(m, b, ng);
            matrix_goes_on(m, b1, nu);
            let (u, b2) = bind_matrix(m, b1, nu);
            on_and_on(b, b1, b2, 1, 1);
            still_held(m, b1, b2, 1, ng);
            assert(ng[0] == blk_name(i, "ffn_gate.weight"@));
            assert(nu[0] == blk_name(i, "ffn_up.weight"@));
        },
    }
}

proof fn moe_goes_on(m: ModelView, b: BindView, i: nat)
    requires
        numbered(b),
        b.steps.len() + 5 < u32::MAX,
    ensures
        ({
            let (w, r) = bind_moe(m, b, i);
            &&& goes_on(b, r, 5)
            &&& numbered(r)
            &&& r.steps.len() <= b.steps.len() + 5
            &&& r.failed is None ==> b.failed is None
            &&& r.failed is None ==> (w is Some) == m.has(blk_name(i, "ffn_gate_inp.weight"@))
            &&& r.failed is None && w is Some ==> {
                &&& holds_matrix(m, r, w->0.gate_inp, seq![blk_name(i, "ffn_gate_inp.weight"@)])
                &&& holds_matrix(
                    m,
                    r,
                    w->0.up_exps,
                    seq![blk_name(i, "ffn_up_exps.weight"@), blk_name(i, "ffn_up_exp.weight"@)],
                )
                &&& holds_matrix(
                    m,
                    r,
                    w->0.down_exps,
                    seq![blk_name(i, "ffn_down_exps.weight"@), blk_name(i, "ffn_down_exp.weight"@)],
                )
                &&& w->0.gate_exps matches Some(g) ==> holds_matrix(
                    m,
                    r,
                    g,
                    seq![blk_name(i, "ffn_gate_exps.weight"@), blk_name(i, "ffn_gate_exp.weight"@)],
                )
                &&& may_hold(m, r, w->0.exp_probs_b, seq![blk_name(i, "exp_probs_b.bias"@)])
            }
        }),
{
    reveal(numbered);
    reveal(goes_on);
    reveal(holds_matrix);
    reveal(holds_vector);
    reveal(may_hold);
    let n0 = seq![blk_name(i, "ffn_gate_inp.weight"@)];
    let n1 = seq![blk_name(i, "ffn_gate_exps.weight"@), blk_name(i, "ffn_gate_exp.weight"@)];
    let n2 = seq![blk_name(i, "ffn_up_exps.weight"@), blk_name(i, "ffn_up_exp.weight"@)];
    let n3 = seq![blk_name(i, "ffn_down_exps.weight"@), blk_name(i, "ffn_down_exp.weight"@)];
    let n4 = seq![blk_name(i, "exp_probs_b.bias"@)];
    matrix_goes_on(m, b, n0);
    assert(n0[0] == blk_name(i, "ffn_gate_inp.weight"@));
    let (gate, b1) = bind_matrix(m, b, n0);
    if gate is Some {
        matrix_goes_on(m, b1, n1);
        let (ge, b2) = bind_matrix(m, b1, n1);
        named_goes_on(m, b2, n2, blk_name(i, "ffn_up_exps.weight"@));
        let (ue, b3) = bind_named(m, b2, n2, blk_name(i, "ffn_up_exps.weight"@));
        named_goes_on(m, b3, n3, blk_name(i, "ffn_down_exps.weight"@));
        let (de, b4) = bind_named(m, b3, n3, blk_name(i, "ffn_down_exps.weight"@));
        vector_goes_on(m, b4, n4);
        let (pb, b5) = bind_vector(m, b4, n4);
        on_and_on(b3, b4, b5, 1, 1);
        on_and_on(b2, b3, b5, 1, 2);
        on_and_on(b1, b2, b5, 1, 3);
        on_and_on(b, b1, b5, 1, 4);
        still_held(m, b1, b5, 4, n0);
        still_held(m, b2, b5, 3, n1);
        still_held(m, b3, b5, 2, n2);
        still_held(m, b4, b5, 1, n3);
    }
}

proof fn shexp_goes_on(m: ModelView, b: BindView, i: nat)
    requires
        numbered(b),
        b.steps.len() + 3 < u32::MAX,
    ensures
        ({
            let (w, r) = bind_shexp(m, b, i);
            &&& goes_on(b, r, 3)
            &&& numbered(r)
            &&& r.steps.len() <= b.steps.len() + 3
            &&& r.failed is None ==> b.failed is None
            &&& r.failed is None && w is Some ==> {
                &&& holds_matrix(m, r, (w->0).1, seq![blk_name(i, "ffn_up_shexp.weight"@)])
                &&& holds_matrix(m, r, (w->0).2, seq![blk_name(i, "ffn_down_shexp.weight"@)])
                &&& (w->0).0 matches Some(g) ==> holds_matrix(
                    m,
                    r,
                    g,
                    seq![blk_name(i, "ffn_gate_shexp.weight"@)],
                )
            }
        }),
{
    reveal(numbered);
    reveal(goes_on);
    reveal(holds_matrix);
    reveal(holds_vector);
    reveal(may_hold);
    let n0 = seq![blk_name(i, "ffn_up_shexp.weight"@)];
    let n1 = seq![blk_name(i, "ffn_gate_shexp.weight"@)];
    let n2 = seq![blk_name(i, "ffn_down_shexp.weight"@)];
    matrix_goes_on(m, b, n0);
    let (up, b1) = bind_matrix(m, b, n0);
    if up is Some {
        matrix_goes_on(m, b1, n1);
        let (g, b2) = bind_matrix(m, b1, n1);
        named_goes_on(m, b2, n2, blk_name(i, "ffn_down_shexp.weight"@));
        let (d, b3) = bind_named(m, b2, n2, blk_name(i, "ffn_down_shexp.weight"@));
        on_and_on(b1, b2, b3, 1, 1);
        on_and_on(b, b1, b3, 1, 2);
        still_held(m, b1, b3, 2, n0);
        still_held(m, b2, b3, 1, n1);
    }
}

/// The experts of a block have their matrices under their own names, and there are some just where
/// the block has a router; the expert that always runs has its own.
pub proof fn experts_have_their_own(m: ModelView, b: BindView, i: nat)
    requires
        numbered(b),
        b.steps.len() + 8 < u32::MAX,
    ensures
        ({
            let (w, r) = bind_moe(m, b, i);
            &&& r.failed is None ==> (w is Some) == m.has(blk_name(i, "ffn_gate_inp.weight"@))
            &&& r.failed is None && w is Some ==> holds_matrix(
                m,
                r,
                w->0.up_exps,
                seq![blk_name(i, "ffn_up_exps.weight"@), blk_name(i, "ffn_up_exp.weight"@)],
            ) && holds_matrix(
                m,
                r,
                w->0.down_exps,
                seq![blk_name(i, "ffn_down_exps.weight"@), blk_name(i, "ffn_down_exp.weight"@)],
            ) && holds_matrix(m, r, w->0.gate_inp, seq![blk_name(i, "ffn_gate_inp.weight"@)])
                && may_hold(m, r, w->0.exp_probs_b, seq![blk_name(i, "exp_probs_b.bias"@)])
        }),
        ({
            let (w, r) = bind_shexp(m, b, i);
            r.failed is None && w is Some ==> holds_matrix(
                m,
                r,
                (w->0).1,
                seq![blk_name(i, "ffn_up_shexp.weight"@)],
            ) && holds_matrix(m, r, (w->0).2, seq![blk_name(i, "ffn_down_shexp.weight"@)])
        }),
{
    moe_goes_on(m, b, i);
    shexp_goes_on(m, b, i);
}

/// Everything else of a block has its tensor under its own name: what is normed before attention
/// and before the network, biases, the projection back, and what attention sinks into.
#[verifier::rlimit(80)]
#[verifier::spinoff_prover]
pub proof fn the_rest_of_a_block_has_its_own(m: ModelView, b: BindView, s: SpecView, i: nat)
    requires
        numbered(b),
        b.steps.len() + 64 < u32::MAX,
        bind_layer(m, b, s, i).1.failed is None,
    ensures
        ({
            let (w, r) = bind_layer(m, b, s, i);
            &&& may_hold(m, r, w.attn_norm, seq![
                    blk_name(i, "attn_norm.weight"@),
                    blk_name(i, "pre_attention_layernorm.weight"@),
                ])
            &&& may_hold(m, r, w.attn_norm_b, seq![blk_name(i, "attn_norm.bias"@)])
            &&& holds_matrix(m, r, w.attn_out, seq![blk_name(i, "attn_output.weight"@), blk_name(i, "attn_out.weight"@)])
            &&& may_hold(m, r, w.q_bias, seq![blk_name(i, "attn_q.bias"@)])
            &&& may_hold(m, r, w.k_bias, seq![blk_name(i, "attn_k.bias"@)])
            &&& may_hold(m, r, w.v_bias, seq![blk_name(i, "attn_v.bias"@)])
            &&& may_hold(m, r, w.out_bias, seq![blk_name(i, "attn_output.bias"@)])
            &&& may_hold(m, r, w.q_norm, seq![blk_name(i, "attn_q_norm.weight"@)])
            &&& may_hold(m, r, w.k_norm, seq![blk_name(i, "attn_k_norm.weight"@)])
            &&& may_hold(m, r, w.post_attn_norm, seq![
                    blk_name(i, "post_attention_norm.weight"@),
                    blk_name(i, "attn_post_norm.weight"@),
                ])
            &&& may_hold(m, r, w.ffn_norm, seq![
                    blk_name(i, "ffn_norm.weight"@),
                    blk_name(i, "post_attention_layernorm.weight"@),
                    blk_name(i, "pre_ff_layernorm.weight"@),
                ])
            &&& may_hold(m, r, w.ffn_norm_b, seq![blk_name(i, "ffn_norm.bias"@)])
            &&& w.ffn_down matches Some(x) ==> holds_matrix(m, r, x, seq![blk_name(i, "ffn_down.weight"@)])
            &&& may_hold(m, r, w.ffn_up_b, seq![blk_name(i, "ffn_up.bias"@)])
            &&& may_hold(m, r, w.ffn_down_b, seq![blk_name(i, "ffn_down.bias"@)])
            &&& may_hold(m, r, w.ffn_post_norm, seq![
                    blk_name(i, "post_ffw_norm.weight"@),
                    blk_name(i, "ffn_post_norm.weight"@),
                ])
            &&& may_hold(m, r, w.sinks, seq![blk_name(i, "attn_sinks.weight"@), blk_name(i, "attn_sinks"@)])
        }),
{
    queries_keys_and_values_have_their_own(m, b, s, i);
    let c0 = bind_qkv(m, b, s, i).1;
    gates_have_their_own(m, c0, i);
    let c1 = bind_gate_up(m, c0, i).1;
    moe_goes_on(m, c1, i);
    let c2 = bind_moe(m, c1, i).1;
    shexp_goes_on(m, c2, i);
    let d0 = bind_shexp(m, c2, i).1;
    let n1 = seq![
        blk_name(i, "attn_norm.weight"@),
        blk_name(i, "pre_attention_layernorm.weight"@),
    ];
    vector_goes_on(m, d0, n1);
    let d1 = bind_vector(m, d0, n1).1;
    let n2 = seq![blk_name(i, "attn_norm.bias"@)];
    vector_goes_on(m, d1, n2);
    let d2 = bind_vector(m, d1, n2).1;
    let n3 = seq![blk_name(i, "attn_output.weight"@), blk_name(i, "attn_out.weight"@)];
    matrix_goes_on(m, d2, n3);
    let d3 = bind_required(m, d2, n3).1;
    let n4 = seq![blk_name(i, "attn_q.bias"@)];
    vector_goes_on(m, d3, n4);
    let d4 = bind_vector(m, d3, n4).1;
    let n5 = seq![blk_name(i, "attn_k.bias"@)];
    vector_goes_on(m, d4, n5);
    let d5 = bind_vector(m, d4, n5).1;
    let n6 = seq![blk_name(i, "attn_v.bias"@)];
    vector_goes_on(m, d5, n6);
    let d6 = bind_vector(m, d5, n6).1;
    let n7 = seq![blk_name(i, "attn_output.bias"@)];
    vector_goes_on(m, d6, n7);
    let d7 = bind_vector(m, d6, n7).1;
    let n8 = seq![blk_name(i, "attn_q_norm.weight"@)];
    vector_goes_on(m, d7, n8);
    let d8 = bind_vector(m, d7, n8).1;
    let n9 = seq![blk_name(i, "attn_k_norm.weight"@)];
    vector_goes_on(m, d8, n9);
    let d9 = bind_vector(m, d8, n9).1;
    let n10 = seq![
        blk_name(i, "post_attention_norm.weight"@),
        blk_name(i, "attn_post_norm.weight"@),
    ];
    vector_goes_on(m, d9, n10);
    let d10 = bind_vector(m, d9, n10).1;
    let n11 = seq![
        blk_name(i, "ffn_norm.weight"@),
        blk_name(i, "post_attention_layernorm.weight"@),
        blk_name(i, "pre_ff_layernorm.weight"@),
    ];
    vector_goes_on(m, d10, n11);
    let d11 = bind_vector(m, d10, n11).1;
    let n12 = seq![blk_name(i, "ffn_norm.bias"@)];
    vector_goes_on(m, d11, n12);
    let d12 = bind_vector(m, d11, n12).1;
    let n13 = seq![blk_name(i, "ffn_down.weight"@)];
    matrix_goes_on(m, d12, n13);
    let d13 = bind_matrix(m, d12, n13).1;
    let n14 = seq![blk_name(i, "ffn_up.bias"@)];
    vector_goes_on(m, d13, n14);
    let d14 = bind_vector(m, d13, n14).1;
    let n15 = seq![blk_name(i, "ffn_down.bias"@)];
    vector_goes_on(m, d14, n15);
    let d15 = bind_vector(m, d14, n15).1;
    let n16 = seq![blk_name(i, "post_ffw_norm.weight"@), blk_name(i, "ffn_post_norm.weight"@)];
    vector_goes_on(m, d15, n16);
    let d16 = bind_vector(m, d15, n16).1;
    let n17 = seq![blk_name(i, "attn_sinks.weight"@), blk_name(i, "attn_sinks"@)];
    vector_goes_on(m, d16, n17);
    let d17 = bind_vector(m, d16, n17).1;
    on_and_on(d15, d16, d17, 1, 1);
    on_and_on(d14, d15, d17, 1, 2);
    on_and_on(d13, d14, d17, 1, 3);
    on_and_on(d12, d13, d17, 1, 4);
    on_and_on(d11, d12, d17, 1, 5);
    on_and_on(d10, d11, d17, 1, 6);
    on_and_on(d9, d10, d17, 1, 7);
    on_and_on(d8, d9, d17, 1, 8);
    on_and_on(d7, d8, d17, 1, 9);
    on_and_on(d6, d7, d17, 1, 10);
    on_and_on(d5, d6, d17, 1, 11);
    on_and_on(d4, d5, d17, 1, 12);
    on_and_on(d3, d4, d17, 1, 13);
    on_and_on(d2, d3, d17, 1, 14);
    on_and_on(d1, d2, d17, 1, 15);
    still_held(m, d1, d17, 16, n1);
    still_held(m, d2, d17, 15, n2);
    still_held(m, d3, d17, 14, n3);
    still_held(m, d4, d17, 13, n4);
    still_held(m, d5, d17, 12, n5);
    still_held(m, d6, d17, 11, n6);
    still_held(m, d7, d17, 10, n7);
    still_held(m, d8, d17, 9, n8);
    still_held(m, d9, d17, 8, n9);
    still_held(m, d10, d17, 7, n10);
    still_held(m, d11, d17, 6, n11);
    still_held(m, d12, d17, 5, n12);
    still_held(m, d13, d17, 4, n13);
    still_held(m, d14, d17, 3, n14);
    still_held(m, d15, d17, 2, n15);
    still_held(m, d16, d17, 1, n16);
}

/// Loading starts with nothing; the table of embeddings comes first, and serves for the output too
/// where the file has no other.
pub proof fn embeddings_may_serve_twice(m: ModelView, s: SpecView)
    ensures
        numbered(BindView::fresh()),
        ({
            let (w, r) = bind_all(m, s);
            &&& s.tied_embeddings ==> w.output == w.token_embd
            &&& m.has("token_embd.weight"@) ==> w.token_embd == WeightId(0)
            &&& !s.tied_embeddings && m.has("token_embd.weight"@) && m.has("output.weight"@)
                ==> w.output == WeightId(1)
        }),
{
    reveal(numbered);
    reveal(Seq::filter);
    first_is_present(m, seq!["token_embd.weight"@], 0);
    first_is_present(m, seq!["output.weight"@], 0);
    assert(seq!["token_embd.weight"@][0] == "token_embd.weight"@);
    assert(seq!["output.weight"@][0] == "output.weight"@);
    let (first, b1) = bind_required(m, BindView::fresh(), seq!["token_embd.weight"@]);
    if m.has("token_embd.weight"@) {
        assert(first == WeightId(0));
        assert(b1.next_weight == 1 && b1.failed is None);
        let (second, b2) = bind_required(m, b1, seq!["output.weight"@]);
        assert(m.has("output.weight"@) ==> second == WeightId(1));
    }
    reveal(bind_all);
}

} // verus!
