//! What the code of a function does: control goes through its blocks as the terminators say, each
//! instruction does its operation, and every thread gets its turn.

use vstd::prelude::*;

use crate::bir::{BlockId, Function, InstId, Term, Ty, ValRef};
use crate::rv::check::{
    arg_reg, args_fit, args_taken, lemma_args_taken_mono, param_loc, wide_ty, ArgLoc,
};
use crate::rv::enc::{
    addi_asm, ret_asm, signed, unique_labels, AluOp, Asm, BCond, LoadOp, StoreOp, A0, A1, RA, SP,
    T0, T1, T2, ZERO,
};
use crate::rv::exec::{
    after, cell, exec, law_word_is_read_back, law_words_are_apart, lemma_after_push, lemma_reload,
    lemma_reload_wide, read, written, written_wide, Mem, State,
};
use crate::rv::flow::{
    copied, goes, lemma_branches, lemma_jumps, lemma_next, lemma_starts_front, lemma_starts_prefix,
    lemma_stay, lemma_then, starts,
};
use crate::rv::inst::{
    did, law_instruction, lemma_inst_extends, lemma_on, lemma_runs_on_itself, lemma_runs_on_push,
    lemma_starts_itself, lemma_starts_push, runs_on,
};
use crate::rv::lower::{
    block_name, block_ok, frame_size, fresh_name, function_text, home_of, inst_of, inst_ok,
    loopctr_home, lowerable, nthreads_home, param_home, phi_copies, put, put_blocks, put_cases,
    put_copies, put_copy, put_emit_phi_copies, put_epilogue, put_frame_addr, put_insts,
    put_lower_edge, put_lower_inst, put_lower_term, put_params, put_prologue, put_reload,
    put_reload_wide, put_return, ra_home, retval_home, spec_low_word, term_ok, value_ty, width,
    PhiCopy, St, W,
};
use crate::rv::machine::{
    difference, get, law_label_is_its_line, lemma_line_of, line_of, sum, word, wrote,
};
use crate::rv::softfloat::runtime_asm;
use crate::rv::softfloat_run::has_runtime;

verus! {

broadcast use crate::rv::machine::group_machine;

// ---- instructions, one after the other -----------------------------------------------------

/// Whether the first `n` of some instructions, one after the other, went through the states.
pub open spec fn traced(f: Function, ids: Seq<InstId>, n: nat, states: Seq<State>) -> bool {
    &&& states.len() == n + 1
    &&& forall|k: int| 0 <= k < n ==> did(f, ids[k], #[trigger] states[k], states[k + 1])
}

/// The code of the first `n` of some instructions follows what was there.
proof fn lemma_insts_extend(st: St, f: Function, ids: Seq<InstId>, n: nat)
    ensures
        starts(put_insts(st, f, ids, n).text, st.text),
    decreases n,
{
    lemma_starts_itself(st.text);
    if n > 0 {
        let p = put_insts(st, f, ids, (n - 1) as nat);
        lemma_insts_extend(st, f, ids, (n - 1) as nat);
        lemma_inst_extends(p, f, ids[n - 1]);
        lemma_starts_prefix(put_lower_inst(p, f, ids[n - 1]).text, p.text, st.text);
    }
}

/// The code of some instructions does their operations, one after the other.
pub proof fn law_instructions(
    text: Seq<Asm>,
    ra: u32,
    c: State,
    st: St,
    f: Function,
    ids: Seq<InstId>,
    n: nat,
) -> (states: Seq<State>)
    requires
        unique_labels(text),
        has_runtime(text),
        n <= ids.len(),
        forall|k: int| 0 <= k < ids.len() ==> inst_ok(f, #[trigger] inst_of(f, ids[k])),
        starts(text, put_insts(st, f, ids, n).text),
    ensures
        traced(f, ids, n, states),
        states[0] == c,
        goes(
            text,
            ra,
            st.text.len() as int,
            c,
            put_insts(st, f, ids, n).text.len() as int,
            states[n as int],
        ),
    decreases n,
{
    let i = st.text.len() as int;
    if n == 0 {
        lemma_stay(text, ra, i, c);
        seq![c]
    } else {
        let p = put_insts(st, f, ids, (n - 1) as nat);
        let id = ids[n - 1];
        let t = put_lower_inst(p, f, id);
        lemma_inst_extends(p, f, id);
        lemma_starts_prefix(text, t.text, p.text);
        let front = law_instructions(text, ra, c, st, f, ids, (n - 1) as nat);
        let e = front[n - 1];
        assert(inst_ok(f, inst_of(f, id)));
        let d = law_instruction(text, ra, e, p, f, id);
        lemma_then(text, ra, i, c, p.text.len() as int, e, t.text.len() as int, d);
        let states = front.push(d);
        assert forall|k: int| 0 <= k < n implies did(
            f,
            ids[k],
            #[trigger] states[k],
            states[k + 1],
        ) by {
            if k < n - 1 {
                assert(did(f, ids[k], front[k], front[k + 1]));
            }
        }
        states
    }
}

// ---- edges ---------------------------------------------------------------------------------

/// The state after the copies of one edge among the first `n` of the function, one after the
/// other.
pub open spec fn edge_copied(f: Function, from: u32, to: u32, n: nat, c: State) -> State
    decreases n,
{
    if n == 0 {
        c
    } else {
        let e = edge_copied(f, from, to, (n - 1) as nat, c);
        let p = phi_copies(f, f.blocks@.len())[n - 1];
        if p.from == from && p.to == to {
            copied(e, f, p.val, p.ty, cell(e, p.dest as int))
        } else {
            e
        }
    }
}

/// The state after an edge.
pub open spec fn edge_taken(f: Function, from: u32, to: u32, c: State) -> State {
    edge_copied(f, from, to, phi_copies(f, f.blocks@.len()).len(), c)
}

/// A value to a cell of the frame.
proof fn lemma_to_cell(
    text: Seq<Asm>,
    ra: u32,
    from: nat,
    c: State,
    st: St,
    f: Function,
    p: PhiCopy,
)
    requires
        from <= st.text.len(),
    ensures
        ({
            let b = after(text, ra, st.text, from, c);
            let d = after(text, ra, put_copy(st, f, p).text, from, c);
            &&& d.m == copied(b, f, p.val, p.ty, cell(b, p.dest as int)).m
            &&& get(d.r, SP) == get(b.r, SP)
        }),
{
    broadcast use lemma_after_push;

    if wide_ty(p.ty) {
        lemma_reload_wide(text, ra, from, c, st, f, p.val, T0, T1);
        let q = put_reload_wide(st, f, p.val, T0, T1);
        let g = after(text, ra, q.text, from, c);
        assert(q.text.len() >= from);
    } else {
        lemma_reload(text, ra, from, c, st, f, p.val, T0, width(p.ty), false);
        let q = put_reload(st, f, p.val, T0, width(p.ty), false);
        let g = after(text, ra, q.text, from, c);
        assert(q.text.len() >= from);
    }
}

proof fn lemma_copy_runs_on(from: Seq<Asm>, st: St, f: Function, p: PhiCopy)
    requires
        runs_on(from, st.text),
    ensures
        runs_on(from, put_copy(st, f, p).text),
{
    broadcast use lemma_runs_on_push;

}

proof fn lemma_copies(
    text: Seq<Asm>,
    ra: u32,
    c: State,
    st: St,
    f: Function,
    from: u32,
    to: u32,
    n: nat,
)
    ensures
        runs_on(st.text, put_copies(st, f, from, to, n).text),
        ({
            let t = put_copies(st, f, from, to, n);
            let d = after(text, ra, t.text, st.text.len(), c);
            &&& d.m == edge_copied(f, from, to, n, c).m
            &&& get(d.r, SP) == get(c.r, SP)
            &&& get(edge_copied(f, from, to, n, c).r, SP) == get(c.r, SP)
        }),
    decreases n,
{
    if n == 0 {
        lemma_runs_on_itself(st.text);
    } else {
        lemma_copies(text, ra, c, st, f, from, to, (n - 1) as nat);
        let q = put_copies(st, f, from, to, (n - 1) as nat);
        let p = phi_copies(f, f.blocks@.len())[n - 1];
        lemma_copy_runs_on(st.text, q, f, p);
        lemma_to_cell(text, ra, st.text.len(), c, q, f, p);
    }
}

/// Whether a label is defined, and its line.
pub open spec fn has_line(text: Seq<Asm>, name: Seq<char>) -> bool {
    line_of(text, name) is Some
}

pub open spec fn at(text: Seq<Asm>, name: Seq<char>) -> int {
    line_of(text, name)->0
}

/// The code of an edge writes the results of the phis, and goes to the block.
pub proof fn law_edge(
    text: Seq<Asm>,
    ra: u32,
    c: State,
    st: St,
    f: Function,
    from: u32,
    to: u32,
) -> (d: State)
    requires
        unique_labels(text),
        starts(text, put_lower_edge(st, f, from, to).text),
        has_line(text, block_name(to as nat)),
    ensures
        goes(text, ra, st.text.len() as int, c, at(text, block_name(to as nat)), d),
        d.m == edge_taken(f, from, to, c).m,
        get(d.r, SP) == get(c.r, SP),
        starts(put_lower_edge(st, f, from, to).text, st.text),
{
    let q = put_emit_phi_copies(st, f, from, to);
    let name = block_name(to as nat);
    lemma_copies(text, ra, c, st, f, from, to, phi_copies(f, f.blocks@.len()).len());
    lemma_starts_front(text, q.text, Asm::Jal(ZERO, name));
    let d = lemma_on(text, ra, c, st.text, q.text);
    law_label_is_its_line(text, name);
    lemma_jumps(text, ra, st.text.len() as int, c, q.text.len() as int, d, at(text, name));
    lemma_starts_push(q.text, st.text, Asm::Jal(ZERO, name));
    d
}

proof fn lemma_edge_extends(st: St, f: Function, from: u32, to: u32)
    ensures
        starts(put_lower_edge(st, f, from, to).text, st.text),
{
    let q = put_emit_phi_copies(st, f, from, to);
    let c = State { r: Map::empty(), m: Map::empty() };
    lemma_copies(st.text, 0, c, st, f, from, to, phi_copies(f, f.blocks@.len()).len());
    lemma_starts_push(q.text, st.text, Asm::Jal(ZERO, block_name(to as nat)));
}

// ---- terminators ---------------------------------------------------------------------------

/// The first of the first `n` cases of a switch whose low word is `x`.
pub open spec fn matched(cases: Seq<(i64, BlockId)>, x: u32, n: nat) -> Option<int>
    decreases n,
{
    if n == 0 {
        None
    } else {
        match matched(cases, x, (n - 1) as nat) {
            Some(k) => Some(k),
            None => if word(spec_low_word(cases[n - 1].0)) == x {
                Some(n - 1)
            } else {
                None
            },
        }
    }
}

/// The block that a terminator goes to; none where the thread returns.
pub open spec fn goes_to(f: Function, term: Term, c: State) -> Option<u32> {
    match term {
        Term::Br(t) => Some(t.0),
        Term::CondBr(cond, t, e) => if read(c.m, cell(c, home_of(f, cond)), W::B1) != 0 {
            Some(t.0)
        } else {
            Some(e.0)
        },
        Term::Switch(scrut, default, cases) => {
            let x = read(c.m, cell(c, home_of(f, scrut)), width(value_ty(f, scrut)));
            match matched(cases@, x, cases@.len()) {
                Some(k) => Some(cases@[k].1.0),
                None => Some(default.0),
            }
        },
        Term::Ret(_) => None,
    }
}

/// The state after a return: the value is in its home.
pub open spec fn left(f: Function, term: Term, c: State) -> State {
    match term {
        Term::Ret(Some(v)) => copied(c, f, v, f.ret, cell(c, retval_home(f))),
        _ => c,
    }
}

/// Whether every label that the text of a function jumps to is defined: its blocks and the lines
/// of the thread loop.
pub open spec fn laid_out(text: Seq<Asm>, f: Function) -> bool {
    &&& forall|k: nat| k < f.blocks@.len() ==> has_line(text, #[trigger] block_name(k))
    &&& has_line(text, "__loop_check"@)
    &&& has_line(text, "__loop_incr"@)
    &&& has_line(text, "__loop_end"@)
}

/// The label behind the edge of case `n`.
spec fn skip_label(q: St) -> Seq<char> {
    fresh_name("switch_skip"@, q.labels + 1)
}

/// The text of a case up to its edge.
spec fn case_opened(q: St, x: i64) -> St {
    let p = put(q, Asm::Li(T1, spec_low_word(x)));
    put(St { labels: p.labels + 1, ..p }, Asm::Branch(BCond::Ne, T0, T1, skip_label(q)))
}

proof fn lemma_cases_extend(
    st: St,
    f: Function,
    from: u32,
    cases: Seq<(i64, BlockId)>,
    n: nat,
)
    requires
        n <= cases.len(),
    ensures
        starts(put_cases(st, f, from, cases, n).text, st.text),
        n > 0 ==> ({
            let q = put_cases(st, f, from, cases, (n - 1) as nat);
            let p = case_opened(q, cases[n - 1].0);
            let u = put_lower_edge(p, f, from, cases[n - 1].1.0);
            &&& put_cases(st, f, from, cases, n) == put(u, Asm::Label(skip_label(q)))
            &&& starts(u.text, p.text)
            &&& starts(p.text, q.text)
        }),
    decreases n,
{
    broadcast use lemma_starts_push;

    if n == 0 {
        lemma_starts_itself(st.text);
    } else {
        let q = put_cases(st, f, from, cases, (n - 1) as nat);
        let p = case_opened(q, cases[n - 1].0);
        let u = put_lower_edge(p, f, from, cases[n - 1].1.0);
        lemma_cases_extend(st, f, from, cases, (n - 1) as nat);
        lemma_starts_itself(q.text);
        lemma_edge_extends(p, f, from, cases[n - 1].1.0);
        assert(starts(p.text, q.text));
        lemma_starts_prefix(u.text, p.text, q.text);
        lemma_starts_prefix(u.text, q.text, st.text);
    }
}

/// The code of the first `n` cases, on the value in `t0`.
#[verifier::spinoff_prover]
proof fn lemma_cases(
    text: Seq<Asm>,
    ra: u32,
    i: int,
    c: State,
    st: St,
    e: State,
    f: Function,
    from: u32,
    cases: Seq<(i64, BlockId)>,
    n: nat,
) -> (g: State)
    requires
        unique_labels(text),
        n <= cases.len(),
        forall|k: int|
            0 <= k < cases.len() ==> has_line(
                text,
                block_name((#[trigger] cases[k]).1.0 as nat),
            ),
        goes(text, ra, i, c, st.text.len() as int, e),
        starts(text, put_cases(st, f, from, cases, n).text),
    ensures
        get(g.r, SP) == get(e.r, SP),
        match matched(cases, get(e.r, T0), n) {
            Some(k) => {
                &&& 0 <= k < n
                &&& goes(text, ra, i, c, at(text, block_name(cases[k].1.0 as nat)), g)
                &&& g.m == edge_taken(f, from, cases[k].1.0, e).m
            },
            None => {
                &&& goes(text, ra, i, c, put_cases(st, f, from, cases, n).text.len() as int, g)
                &&& g.m == e.m
                &&& get(g.r, T0) == get(e.r, T0)
            },
        },
    decreases n,
{
    if n == 0 {
        e
    } else {
        let q = put_cases(st, f, from, cases, (n - 1) as nat);
        let p = case_opened(q, cases[n - 1].0);
        let to = cases[n - 1].1.0;
        let u = put_lower_edge(p, f, from, to);
        let v = put(u, Asm::Label(skip_label(q)));
        lemma_cases_extend(st, f, from, cases, n);
        lemma_starts_front(text, u.text, Asm::Label(skip_label(q)));
        lemma_starts_prefix(text, u.text, p.text);
        lemma_starts_prefix(text, p.text, q.text);
        let x = get(e.r, T0);
        let g = lemma_cases(text, ra, i, c, st, e, f, from, cases, (n - 1) as nat);
        if matched(cases, x, (n - 1) as nat) is Some {
            g
        } else {
            let line = Asm::Li(T1, spec_low_word(cases[n - 1].0));
            let j = q.text.len() as int;
            lemma_starts_front(
                text,
                q.text.push(line),
                Asm::Branch(BCond::Ne, T0, T1, skip_label(q)),
            );
            lemma_starts_front(text, q.text, line);
            let g1 = exec(text, ra, line, g);
            lemma_next(text, ra, i, c, j, g, j + 1, g1);
            let end = u.text.len() as int;
            lemma_branches(text, ra, i, c, j + 1, g1, end);
            if word(spec_low_word(cases[n - 1].0)) == x {
                assert(has_line(text, block_name(cases[n - 1].1.0 as nat)));
                let d = law_edge(text, ra, g1, p, f, from, to);
                let there = at(text, block_name(to as nat));
                lemma_then(text, ra, i, c, j + 2, g1, there, d);
                lemma_edge_depends(f, from, to, phi_copies(f, f.blocks@.len()).len(), g1, e);
                d
            } else {
                let g2 = exec(text, ra, Asm::Label(skip_label(q)), g1);
                lemma_next(text, ra, i, c, end, g1, end + 1, g2);
                g2
            }
        }
    }
}

/// What an edge makes of memory depends on memory and the stack pointer alone.
proof fn lemma_edge_depends(f: Function, from: u32, to: u32, n: nat, c: State, d: State)
    requires
        c.m == d.m,
        get(c.r, SP) == get(d.r, SP),
    ensures
        edge_copied(f, from, to, n, c).m == edge_copied(f, from, to, n, d).m,
        get(edge_copied(f, from, to, n, c).r, SP) == get(edge_copied(f, from, to, n, d).r, SP),
    decreases n,
{
    if n > 0 {
        lemma_edge_depends(f, from, to, (n - 1) as nat, c, d);
    }
}

/// A return value to its home.
proof fn lemma_return(text: Seq<Asm>, ra: u32, c: State, st: St, f: Function, v: ValRef)
    ensures
        runs_on(st.text, put_return(st, f, v).text),
        ({
            let d = after(text, ra, put_return(st, f, v).text, st.text.len(), c);
            &&& d.m == copied(c, f, v, f.ret, cell(c, retval_home(f))).m
            &&& get(d.r, SP) == get(c.r, SP)
        }),
{
    broadcast use {lemma_after_push, lemma_runs_on_push};

    let n = st.text.len();
    lemma_runs_on_itself(st.text);
    if wide_ty(f.ret) {
        lemma_reload_wide(text, ra, n, c, st, f, v, T0, T1);
        let q = put_reload_wide(st, f, v, T0, T1);
        let g = after(text, ra, q.text, n, c);
        assert(q.text.len() >= n);
    } else {
        lemma_reload(text, ra, n, c, st, f, v, T0, width(f.ret), false);
        let q = put_reload(st, f, v, T0, width(f.ret), false);
        let g = after(text, ra, q.text, n, c);
        assert(q.text.len() >= n);
    }
}

/// Whether control went on from a terminator: to the block that it names, by its edge, or to the
/// next thread.
pub open spec fn ended(
    text: Seq<Asm>,
    ra: u32,
    f: Function,
    b: u32,
    term: Term,
    i: int,
    c: State,
    e: State,
    d: State,
) -> bool {
    &&& get(d.r, SP) == get(e.r, SP)
    &&& match goes_to(f, term, e) {
        Some(t) => {
            &&& goes(text, ra, i, c, at(text, block_name(t as nat)), d)
            &&& d.m == edge_taken(f, b, t, e).m
        },
        None => {
            &&& goes(text, ra, i, c, at(text, "__loop_incr"@), d)
            &&& d.m == left(f, term, e).m
        },
    }
}

/// A value of a word or less in `t0`.
proof fn lemma_loaded(text: Seq<Asm>, ra: u32, c: State, st: St, f: Function, v: ValRef, w: W)
    ensures
        ({
            let t = put_reload(st, f, v, T0, w, false);
            let d = after(text, ra, t.text, st.text.len(), c);
            &&& runs_on(st.text, t.text)
            &&& d.m == c.m
            &&& get(d.r, SP) == get(c.r, SP)
            &&& get(d.r, T0) == read(c.m, cell(c, home_of(f, v)), w)
        }),
{
    broadcast use lemma_runs_on_push;

    lemma_runs_on_itself(st.text);
    lemma_reload(text, ra, st.text.len(), c, st, f, v, T0, w, false);
}

proof fn lemma_two_ways(
    text: Seq<Asm>,
    ra: u32,
    c: State,
    st: St,
    f: Function,
    b: u32,
    term: Term,
) -> (d: State)
    requires
        unique_labels(text),
        laid_out(text, f),
        term is CondBr,
        term_ok(f, term),
        starts(text, put_lower_term(st, f, b, term).text),
    ensures
        ended(text, ra, f, b, term, st.text.len() as int, c, c, d),
{
    let i = st.text.len() as int;
    let cond = term->CondBr_0;
    let yes = term->CondBr_1.0;
    let no = term->CondBr_2.0;
    let q = put_reload(st, f, cond, T0, W::B1, false);
    let label = fresh_name("condbr_false"@, q.labels + 1);
    let branch = Asm::Branch(BCond::Eq, T0, ZERO, label);
    let p1 = put(St { labels: q.labels + 1, ..q }, branch);
    let p2 = put_lower_edge(p1, f, b, yes);
    let p3 = put(p2, Asm::Label(label));
    let p4 = put_lower_edge(p3, f, b, no);
    assert(p4 == put_lower_term(st, f, b, term));
    lemma_edge_extends(p3, f, b, no);
    lemma_starts_prefix(text, p4.text, p3.text);
    lemma_starts_front(text, p2.text, Asm::Label(label));
    lemma_edge_extends(p1, f, b, yes);
    lemma_starts_prefix(text, p2.text, p1.text);
    lemma_starts_front(text, q.text, branch);
    lemma_loaded(text, ra, c, st, f, cond, W::B1);
    let e = lemma_on(text, ra, c, st.text, q.text);
    let at_no = p2.text.len() as int;
    lemma_branches(text, ra, i, c, q.text.len() as int, e, at_no);
    assert(has_line(text, block_name(yes as nat)) && has_line(text, block_name(no as nat)));
    let n = phi_copies(f, f.blocks@.len()).len();
    if get(e.r, T0) != 0 {
        let d = law_edge(text, ra, e, p1, f, b, yes);
        lemma_then(text, ra, i, c, p1.text.len() as int, e, at(text, block_name(yes as nat)), d);
        lemma_edge_depends(f, b, yes, n, e, c);
        d
    } else {
        let g = exec(text, ra, Asm::Label(label), e);
        lemma_next(text, ra, i, c, at_no, e, at_no + 1, g);
        let d = law_edge(text, ra, g, p3, f, b, no);
        lemma_then(text, ra, i, c, p3.text.len() as int, g, at(text, block_name(no as nat)), d);
        lemma_edge_depends(f, b, no, n, g, c);
        d
    }
}

proof fn lemma_many_ways(
    text: Seq<Asm>,
    ra: u32,
    c: State,
    st: St,
    f: Function,
    b: u32,
    term: Term,
) -> (d: State)
    requires
        unique_labels(text),
        laid_out(text, f),
        term is Switch,
        term_ok(f, term),
        starts(text, put_lower_term(st, f, b, term).text),
    ensures
        ended(text, ra, f, b, term, st.text.len() as int, c, c, d),
{
    let i = st.text.len() as int;
    let scrut = term->Switch_0;
    let default = term->Switch_1.0;
    let cases = term->Switch_2@;
    let w = width(value_ty(f, scrut));
    let q = put_reload(st, f, scrut, T0, w, false);
    let p = put_cases(q, f, b, cases, cases.len());
    let t = put_lower_edge(p, f, b, default);
    assert(t == put_lower_term(st, f, b, term));
    lemma_edge_extends(p, f, b, default);
    lemma_starts_prefix(text, t.text, p.text);
    lemma_cases_extend(q, f, b, cases, cases.len());
    lemma_starts_prefix(text, p.text, q.text);
    lemma_loaded(text, ra, c, st, f, scrut, w);
    let e = lemma_on(text, ra, c, st.text, q.text);
    assert forall|k: int| 0 <= k < cases.len() implies has_line(
        text,
        block_name((#[trigger] cases[k]).1.0 as nat),
    ) by {}
    assert(has_line(text, block_name(default as nat)));
    let g = lemma_cases(text, ra, i, c, q, e, f, b, cases, cases.len());
    let n = phi_copies(f, f.blocks@.len()).len();
    match matched(cases, get(e.r, T0), cases.len()) {
        Some(k) => {
            lemma_edge_depends(f, b, cases[k].1.0, n, e, c);
            g
        },
        None => {
            let d = law_edge(text, ra, g, p, f, b, default);
            lemma_then(
                text,
                ra,
                i,
                c,
                p.text.len() as int,
                g,
                at(text, block_name(default as nat)),
                d,
            );
            lemma_edge_depends(f, b, default, n, g, c);
            d
        },
    }
}

/// The code of a terminator goes to the block that it names, by its edge, or to the next thread
/// where it returns.
pub proof fn law_terminator(
    text: Seq<Asm>,
    ra: u32,
    c: State,
    st: St,
    f: Function,
    b: u32,
    term: Term,
) -> (d: State)
    requires
        unique_labels(text),
        laid_out(text, f),
        term_ok(f, term),
        starts(text, put_lower_term(st, f, b, term).text),
    ensures
        ended(text, ra, f, b, term, st.text.len() as int, c, c, d),
{
    let i = st.text.len() as int;
    match term {
        Term::Br(t) => {
            assert(has_line(text, block_name(t.0 as nat)));
            law_edge(text, ra, c, st, f, b, t.0)
        },
        Term::CondBr(_, _, _) => lemma_two_ways(text, ra, c, st, f, b, term),
        Term::Switch(_, _, _) => lemma_many_ways(text, ra, c, st, f, b, term),
        Term::Ret(v) => {
            let name = "__loop_incr"@;
            let q = match v {
                Some(v) => put_return(st, f, v),
                None => st,
            };
            lemma_runs_on_itself(st.text);
            if let Some(v) = v {
                lemma_return(text, ra, c, st, f, v);
            }
            lemma_starts_front(text, q.text, Asm::Jal(ZERO, name));
            let d = lemma_on(text, ra, c, st.text, q.text);
            law_label_is_its_line(text, name);
            lemma_jumps(text, ra, i, c, q.text.len() as int, d, at(text, name));
            d
        },
    }
}

proof fn lemma_term_extends(st: St, f: Function, b: u32, term: Term)
    ensures
        starts(put_lower_term(st, f, b, term).text, st.text),
{
    broadcast use lemma_starts_push;

    lemma_starts_itself(st.text);
    match term {
        Term::Br(t) => lemma_edge_extends(st, f, b, t.0),
        Term::CondBr(cond, t, e) => {
            let q = put_reload(st, f, cond, T0, W::B1, false);
            let label = fresh_name("condbr_false"@, q.labels + 1);
            let p1 = put(
                St { labels: q.labels + 1, ..q },
                Asm::Branch(BCond::Eq, T0, ZERO, label),
            );
            assert(starts(q.text, st.text));
            assert(starts(p1.text, st.text));
            let p2 = put_lower_edge(p1, f, b, t.0);
            lemma_edge_extends(p1, f, b, t.0);
            lemma_starts_prefix(p2.text, p1.text, st.text);
            let p3 = put(p2, Asm::Label(label));
            assert(starts(p3.text, st.text));
            lemma_edge_extends(p3, f, b, e.0);
            lemma_starts_prefix(put_lower_edge(p3, f, b, e.0).text, p3.text, st.text);
        },
        Term::Switch(scrut, default, cases) => {
            let q = put_reload(st, f, scrut, T0, width(value_ty(f, scrut)), false);
            assert(starts(q.text, st.text));
            let p = put_cases(q, f, b, cases@, cases@.len());
            lemma_cases_extend(q, f, b, cases@, cases@.len());
            lemma_starts_prefix(p.text, q.text, st.text);
            lemma_edge_extends(p, f, b, default.0);
            lemma_starts_prefix(put_lower_edge(p, f, b, default.0).text, p.text, st.text);
        },
        Term::Ret(Some(v)) => {
            let c = State { r: Map::empty(), m: Map::empty() };
            lemma_return(st.text, 0, c, st, f, v);
        },
        Term::Ret(None) => {},
    }
}

// ---- the layout of a function --------------------------------------------------------------

/// The text before block `b`.
pub open spec fn before(f: Function, b: nat) -> St {
    put_blocks(put_prologue(St { text: Seq::empty(), labels: 0 }, f), f, b)
}

/// The code of block `b`, and what follows it.
proof fn lemma_block_extends(st: St, f: Function, b: nat)
    requires
        b < f.blocks@.len(),
    ensures
        ({
            let p = put_blocks(st, f, b);
            let q = put(p, Asm::Label(block_name(b)));
            let ids = f.blocks@[b as int].insts@;
            let u = put_insts(q, f, ids, ids.len());
            let t = put_lower_term(u, f, b as u32, f.blocks@[b as int].term);
            &&& t == put_blocks(st, f, b + 1)
            &&& starts(t.text, u.text)
            &&& starts(u.text, q.text)
            &&& starts(t.text, p.text)
        }),
{
    let p = put_blocks(st, f, b);
    let q = put(p, Asm::Label(block_name(b)));
    let ids = f.blocks@[b as int].insts@;
    let u = put_insts(q, f, ids, ids.len());
    let t = put_lower_term(u, f, b as u32, f.blocks@[b as int].term);
    lemma_term_extends(u, f, b as u32, f.blocks@[b as int].term);
    lemma_insts_extend(q, f, ids, ids.len());
    lemma_starts_itself(p.text);
    lemma_starts_push(p.text, p.text, Asm::Label(block_name(b)));
    lemma_starts_prefix(u.text, q.text, p.text);
    lemma_starts_prefix(t.text, u.text, p.text);
}

proof fn lemma_blocks_extend(st: St, f: Function, b: nat, n: nat)
    requires
        b <= n <= f.blocks@.len(),
    ensures
        starts(put_blocks(st, f, n).text, put_blocks(st, f, b).text),
    decreases n - b,
{
    if b == n {
        lemma_starts_itself(put_blocks(st, f, n).text);
    } else {
        lemma_block_extends(st, f, b);
        lemma_blocks_extend(st, f, b + 1, n);
        lemma_starts_prefix(
            put_blocks(st, f, n).text,
            put_blocks(st, f, b + 1).text,
            put_blocks(st, f, b).text,
        );
    }
}

/// The lines of the thread loop that go on to the next thread.
spec fn counted(st: St, f: Function) -> St {
    let p = put(st, Asm::Label("__loop_incr"@));
    let p = put_frame_addr(p, f, T0, loopctr_home(f));
    let p = put(p, Asm::Load(LoadOp::Lw, T1, 0, T0));
    let p = put(p, addi_asm(T1, T1, 1));
    put(p, Asm::Store(StoreOp::Sw, T1, 0, T0))
}

/// The lines that restore what came in, up to the return.
spec fn restored(st: St, f: Function) -> St {
    let p = put(st, Asm::Label("__loop_end"@));
    let p = if f.ret is Void {
        p
    } else {
        let p = put_frame_addr(p, f, T0, retval_home(f));
        let p = put(p, Asm::Load(LoadOp::Lw, A0, 0, T0));
        if wide_ty(f.ret) {
            put(p, Asm::Load(LoadOp::Lw, A1, 4, T0))
        } else {
            p
        }
    };
    let p = put_frame_addr(p, f, T0, ra_home());
    let p = put(p, Asm::Load(LoadOp::Lw, RA, 0, T0));
    let p = put(p, Asm::Li(T0, frame_size(f)));
    put(p, Asm::Alu(AluOp::Add, SP, SP, T0))
}

proof fn lemma_epilogue_parts(st: St, f: Function)
    ensures
        ({
            let p = counted(st, f);
            let q = put(p, Asm::Jal(ZERO, "__loop_check"@));
            let u = restored(q, f);
            &&& put_epilogue(st, f) == put(u, ret_asm())
            &&& runs_on(st.text, p.text)
            &&& runs_on(q.text, u.text)
            &&& starts(u.text, st.text)
        }),
{
    broadcast use lemma_runs_on_push;

    let p = counted(st, f);
    let q = put(p, Asm::Jal(ZERO, "__loop_check"@));
    let u = restored(q, f);
    lemma_runs_on_itself(st.text);
    lemma_runs_on_itself(q.text);
    assert(runs_on(q.text, u.text));
    assert(runs_on(st.text, p.text));
    lemma_starts_push(p.text, st.text, Asm::Jal(ZERO, "__loop_check"@));
    lemma_starts_prefix(u.text, q.text, st.text);
}

/// The lines that make the frame and save what came in.
spec fn entered(f: Function) -> St {
    let st = St { text: Seq::empty(), labels: 0 };
    let st = put(st, Asm::Li(T0, frame_size(f)));
    let st = put(st, Asm::Alu(AluOp::Sub, SP, SP, T0));
    let st = put_frame_addr(st, f, T0, ra_home());
    let st = put(st, Asm::Store(StoreOp::Sw, RA, 0, T0));
    let st = put_params(st, f, f.params@.len());
    let st = put_frame_addr(st, f, T0, nthreads_home(f));
    let st = put(
        st,
        Asm::Store(StoreOp::Sw, arg_reg(args_taken(f.params@, f.params@.len())), 0, T0),
    );
    let st = put_frame_addr(st, f, T0, loopctr_home(f));
    put(st, Asm::Store(StoreOp::Sw, ZERO, 0, T0))
}

/// The lines that compare the number of the thread with their count.
spec fn checked(st: St, f: Function) -> St {
    let st = put(st, Asm::Label("__loop_check"@));
    let st = put_frame_addr(st, f, T0, loopctr_home(f));
    let st = put(st, Asm::Load(LoadOp::Lw, T1, 0, T0));
    let st = put_frame_addr(st, f, T0, nthreads_home(f));
    put(st, Asm::Load(LoadOp::Lw, T2, 0, T0))
}

proof fn lemma_prologue_parts(f: Function)
    ensures
        ({
            let p = entered(f);
            let q = checked(p, f);
            &&& before(f, 0) == put(q, Asm::Branch(BCond::Ge, T1, T2, "__loop_end"@))
            &&& runs_on(p.text, q.text)
        }),
{
    broadcast use lemma_runs_on_push;

    lemma_runs_on_itself(entered(f).text);
}

/// Every part of a function stands where its text says.
proof fn lemma_parts(f: Function)
    ensures
        ({
            let text = function_text(f);
            let n = f.blocks@.len();
            let p = counted(before(f, n), f);
            let q = put(p, Asm::Jal(ZERO, "__loop_check"@));
            let u = restored(q, f);
            &&& starts(text, put(u, ret_asm()).text)
            &&& starts(text, u.text)
            &&& starts(text, q.text)
            &&& starts(text, p.text)
            &&& starts(text, checked(entered(f), f).text)
            &&& starts(text, before(f, 0).text)
            &&& starts(text, entered(f).text)
            &&& text[before(f, n).text.len() as int] == Asm::Label("__loop_incr"@)
            &&& text[q.text.len() as int] == Asm::Label("__loop_end"@)
            &&& text[entered(f).text.len() as int] == Asm::Label("__loop_check"@)
            &&& forall|b: nat|
                b <= n ==> starts(text, (#[trigger] before(f, b)).text)
        }),
{
    let text = function_text(f);
    let n = f.blocks@.len();
    let st = before(f, n);
    let p = counted(st, f);
    let q = put(p, Asm::Jal(ZERO, "__loop_check"@));
    let u = restored(q, f);
    let e = put(u, ret_asm());
    lemma_epilogue_parts(st, f);
    assert(text == e.text + runtime_asm());
    assert(text.take(e.text.len() as int) =~= e.text);
    lemma_starts_front(text, u.text, ret_asm());
    lemma_starts_prefix(text, u.text, q.text);
    lemma_starts_front(text, p.text, Asm::Jal(ZERO, "__loop_check"@));
    lemma_starts_prefix(text, p.text, st.text);
    assert forall|b: nat| b <= n implies starts(text, (#[trigger] before(f, b)).text) by {
        lemma_blocks_extend(before(f, 0), f, b, n);
        lemma_starts_prefix(text, st.text, before(f, b).text);
    }
    lemma_prologue_parts(f);
    let h = entered(f);
    let k = checked(h, f);
    assert(starts(text, before(f, 0).text));
    lemma_starts_front(text, k.text, Asm::Branch(BCond::Ge, T1, T2, "__loop_end"@));
    lemma_starts_prefix(text, k.text, h.text);
    assert(k.text[h.text.len() as int] == Asm::Label("__loop_check"@));
    assert(text.take(k.text.len() as int)[h.text.len() as int] == k.text[h.text.len() as int]);
    assert(p.text[st.text.len() as int] == Asm::Label("__loop_incr"@));
    assert(text.take(p.text.len() as int)[st.text.len() as int] == p.text[st.text.len() as int]);
    assert(u.text[q.text.len() as int] == Asm::Label("__loop_end"@));
    assert(text.take(u.text.len() as int)[q.text.len() as int] == u.text[q.text.len() as int]);
}

/// The text of a function defines every label that it needs, each block where the blocks before
/// it end.
pub proof fn law_layout(f: Function)
    requires
        unique_labels(function_text(f)),
    ensures
        laid_out(function_text(f), f),
        forall|b: nat|
            b < f.blocks@.len() ==> at(function_text(f), #[trigger] block_name(b)) == before(
                f,
                b,
            ).text.len(),
{
    let text = function_text(f);
    let n = f.blocks@.len();
    lemma_parts(f);
    let q = put(counted(before(f, n), f), Asm::Jal(ZERO, "__loop_check"@));
    lemma_line_of(text, "__loop_incr"@, before(f, n).text.len() as int);
    lemma_line_of(text, "__loop_end"@, q.text.len() as int);
    lemma_line_of(text, "__loop_check"@, entered(f).text.len() as int);
    assert forall|b: nat| b < n implies has_line(text, #[trigger] block_name(b)) && at(
        text,
        block_name(b),
    ) == before(f, b).text.len() by {
        let st = put_prologue(St { text: Seq::empty(), labels: 0 }, f);
        let p = before(f, b);
        let q = put(p, Asm::Label(block_name(b)));
        lemma_block_extends(st, f, b);
        let t = before(f, b + 1);
        let ids = f.blocks@[b as int].insts@;
        let u = put_insts(q, f, ids, ids.len());
        lemma_starts_prefix(t.text, u.text, q.text);
        lemma_starts_prefix(text, t.text, q.text);
        lemma_starts_front(text, p.text, Asm::Label(block_name(b)));
        lemma_line_of(text, block_name(b), p.text.len() as int);
    }
}

// ---- blocks --------------------------------------------------------------------------------

/// Whether block `b` took one state to another, and where it leads: its instructions went through
/// some states, and its terminator went on from the last.
pub open spec fn block_did(f: Function, b: u32, c: State, next: Option<u32>, d: State) -> bool {
    exists|states: Seq<State>| #[trigger] block_went(f, b, c, next, d, states)
}

/// Whether a block took one state to another through some states.
pub open spec fn block_went(
    f: Function,
    b: u32,
    c: State,
    next: Option<u32>,
    d: State,
    states: Seq<State>,
) -> bool {
    let block = f.blocks@[b as int];
    let e = states[block.insts@.len() as int];
    &&& traced(f, block.insts@, block.insts@.len(), states)
    &&& states[0] == c
    &&& next == goes_to(f, block.term, e)
    &&& d.m == match next {
        Some(t) => edge_taken(f, b, t, e).m,
        None => left(f, block.term, e).m,
    }
    &&& get(d.r, SP) == get(c.r, SP)
}

/// The line where a thread goes on: at a block, or to the next thread.
pub open spec fn place(text: Seq<Asm>, next: Option<u32>) -> int {
    match next {
        Some(t) => at(text, block_name(t as nat)),
        None => at(text, "__loop_incr"@),
    }
}

proof fn lemma_trace_keeps_sp(f: Function, ids: Seq<InstId>, n: nat, states: Seq<State>, k: nat)
    requires
        traced(f, ids, n, states),
        k <= n,
    ensures
        get(states[k as int].r, SP) == get(states[0].r, SP),
    decreases k,
{
    if k > 0 {
        lemma_trace_keeps_sp(f, ids, n, states, (k - 1) as nat);
        assert(did(f, ids[k - 1], states[k - 1], states[k - 1 + 1]));
    }
}

/// A terminator leads to a block of the function.
proof fn lemma_leads_within(f: Function, term: Term, c: State)
    requires
        term_ok(f, term),
    ensures
        goes_to(f, term, c) matches Some(t) ==> t < f.blocks@.len(),
{
    if let Term::Switch(scrut, _, cases) = term {
        let x = read(c.m, cell(c, home_of(f, scrut)), width(value_ty(f, scrut)));
        lemma_matched_within(cases@, x, cases@.len());
    }
}

/// Where the code of block `b` stands.
proof fn lemma_block_stands(f: Function, b: nat)
    requires
        unique_labels(function_text(f)),
        b < f.blocks@.len(),
    ensures
        ({
            let text = function_text(f);
            let p = before(f, b);
            let q = put(p, Asm::Label(block_name(b)));
            let ids = f.blocks@[b as int].insts@;
            let u = put_insts(q, f, ids, ids.len());
            let t = put_lower_term(u, f, b as u32, f.blocks@[b as int].term);
            &&& starts(text, t.text)
            &&& starts(text, u.text)
            &&& starts(text, q.text)
            &&& text[p.text.len() as int] == Asm::Label(block_name(b))
            &&& p.text.len() < text.len()
            &&& at(text, block_name(b)) == p.text.len()
            &&& laid_out(text, f)
        }),
{
    let text = function_text(f);
    let p = before(f, b);
    let q = put(p, Asm::Label(block_name(b)));
    let ids = f.blocks@[b as int].insts@;
    let u = put_insts(q, f, ids, ids.len());
    let t = before(f, b + 1);
    lemma_parts(f);
    law_layout(f);
    lemma_block_extends(before(f, 0), f, b);
    lemma_starts_prefix(text, t.text, u.text);
    lemma_starts_prefix(text, u.text, q.text);
    lemma_starts_front(text, p.text, Asm::Label(block_name(b)));
    assert(at(text, block_name(b)) == p.text.len());
}

/// The code of a block, wherever it stands.
proof fn lemma_block_code(
    text: Seq<Asm>,
    ra: u32,
    c: State,
    p: St,
    f: Function,
    b: u32,
) -> (r: (Option<u32>, State))
    requires
        unique_labels(text),
        has_runtime(text),
        laid_out(text, f),
        b < f.blocks@.len(),
        block_ok(f, f.blocks@[b as int]),
        p.text.len() < text.len(),
        text[p.text.len() as int] == Asm::Label(block_name(b as nat)),
        ({
            let q = put(p, Asm::Label(block_name(b as nat)));
            let ids = f.blocks@[b as int].insts@;
            let u = put_insts(q, f, ids, ids.len());
            let t = put_lower_term(u, f, b, f.blocks@[b as int].term);
            &&& starts(text, t.text)
            &&& starts(text, u.text)
        }),
    ensures
        goes(text, ra, p.text.len() as int, c, place(text, r.0), r.1),
        block_did(f, b, c, r.0, r.1),
        r.0 matches Some(t) ==> t < f.blocks@.len(),
{
    let block = f.blocks@[b as int];
    let ids = block.insts@;
    let i = p.text.len() as int;
    let q = put(p, Asm::Label(block_name(b as nat)));
    let u = put_insts(q, f, ids, ids.len());
    lemma_stay(text, ra, i, c);
    lemma_next(text, ra, i, c, i, c, i + 1, exec(text, ra, text[i], c));
    assert forall|k: int| 0 <= k < ids.len() implies inst_ok(f, #[trigger] inst_of(f, ids[k])) by {
        assert(ids[k] == block.insts@[k]);
    }
    let states = law_instructions(text, ra, c, q, f, ids, ids.len());
    let e = states[ids.len() as int];
    lemma_then(text, ra, i, c, i + 1, c, u.text.len() as int, e);
    lemma_trace_keeps_sp(f, ids, ids.len(), states, ids.len());
    let d = law_terminator(text, ra, e, u, f, b, block.term);
    let next = goes_to(f, block.term, e);
    lemma_then(text, ra, i, c, u.text.len() as int, e, place(text, next), d);
    assert(block_went(f, b, c, next, d, states));
    lemma_leads_within(f, block.term, e);
    (next, d)
}

/// The code of a block does what the block does, and control goes where it leads.
pub proof fn law_block(f: Function, ra: u32, c: State, b: u32) -> (r: (Option<u32>, State))
    requires
        lowerable(f),
        unique_labels(function_text(f)),
        has_runtime(function_text(f)),
        b < f.blocks@.len(),
    ensures
        goes(
            function_text(f),
            ra,
            place(function_text(f), Some(b)),
            c,
            place(function_text(f), r.0),
            r.1,
        ),
        block_did(f, b, c, r.0, r.1),
        r.0 matches Some(t) ==> t < f.blocks@.len(),
{
    lemma_block_stands(f, b as nat);
    assert(block_ok(f, f.blocks@[b as int]));
    lemma_block_code(function_text(f), ra, c, before(f, b as nat), f, b)
}

proof fn lemma_matched_within(cases: Seq<(i64, BlockId)>, x: u32, n: nat)
    ensures
        matched(cases, x, n) matches Some(k) ==> 0 <= k < n,
    decreases n,
{
    if n > 0 {
        lemma_matched_within(cases, x, (n - 1) as nat);
    }
}

// ---- the thread loop -----------------------------------------------------------------------

/// Where a kernel is: about to run a thread or to end, at a block of the running thread, or at its
/// end.
pub enum Spot {
    Check,
    Block(u32),
    End,
}

/// The line of a spot.
pub open spec fn spot_line(text: Seq<Asm>, s: Spot) -> int {
    match s {
        Spot::Check => at(text, "__loop_check"@),
        Spot::Block(b) => at(text, block_name(b as nat)),
        Spot::End => at(text, "__loop_end"@),
    }
}

/// Whether a thread is left: the number of the next one is less than their count.
pub open spec fn more(f: Function, c: State) -> bool {
    signed(read(c.m, cell(c, loopctr_home(f)), W::B4)) < signed(
        read(c.m, cell(c, nthreads_home(f)), W::B4),
    )
}

/// Memory with the number of the thread raised by one.
pub open spec fn raised(f: Function, c: State) -> Mem {
    let home = cell(c, loopctr_home(f));
    written(c.m, home, W::B4, sum(read(c.m, home, W::B4), 1))
}

/// Whether a block that leads to `next` in state `e` took a kernel to a spot and a state.
pub open spec fn led(f: Function, next: Option<u32>, e: State, t: Spot, d: State) -> bool {
    match next {
        Some(b) => t == Spot::Block(b) && d == e,
        None => {
            &&& t == Spot::Check
            &&& d.m == raised(f, e)
            &&& get(d.r, SP) == get(e.r, SP)
        },
    }
}

/// Whether a kernel goes from one spot and state to the next: it looks for a thread that is left,
/// or runs a block.
pub open spec fn goes_from(f: Function, s: Spot, c: State, t: Spot, d: State) -> bool {
    match s {
        Spot::Check => {
            &&& t == if more(f, c) {
                Spot::Block(0)
            } else {
                Spot::End
            }
            &&& d.m == c.m
            &&& get(d.r, SP) == get(c.r, SP)
        },
        Spot::Block(b) => exists|r: (Option<u32>, State)|
            #![trigger block_did(f, b, c, r.0, r.1)]
            block_did(f, b, c, r.0, r.1) && led(f, r.0, r.1, t, d),
        Spot::End => t == s && d == c,
    }
}

/// Whether a kernel goes from one spot and state to another in `n` steps.
pub open spec fn walked(f: Function, s: Spot, c: State, t: Spot, d: State, n: nat) -> bool
    decreases n,
{
    if n == 0 {
        t == s && d == c
    } else {
        exists|r: (Spot, State)|
            #![trigger goes_from(f, r.0, r.1, t, d)]
            walked(f, s, c, r.0, r.1, (n - 1) as nat) && goes_from(f, r.0, r.1, t, d)
    }
}

/// Whether a spot is one of the kernel.
pub open spec fn spot_in(f: Function, s: Spot) -> bool {
    s matches Spot::Block(b) ==> b < f.blocks@.len()
}

/// The lines between a thread and the next.
proof fn lemma_raised(text: Seq<Asm>, ra: u32, c: State, st: St, f: Function)
    ensures
        ({
            let d = after(text, ra, counted(st, f).text, st.text.len(), c);
            &&& d.m == raised(f, c)
            &&& get(d.r, SP) == get(c.r, SP)
        }),
{
    broadcast use lemma_after_push;

    let p = put(st, Asm::Label("__loop_incr"@));
    let p1 = put_frame_addr(p, f, T0, loopctr_home(f));
    let e1 = after(text, ra, p1.text, st.text.len(), c);
    assert(get(e1.r, T0) == cell(c, loopctr_home(f)));
}

/// The lines that compare the number of the thread with their count.
proof fn lemma_checked(text: Seq<Asm>, ra: u32, c: State, st: St, f: Function)
    ensures
        ({
            let d = after(text, ra, checked(st, f).text, st.text.len(), c);
            &&& d.m == c.m
            &&& get(d.r, SP) == get(c.r, SP)
            &&& get(d.r, T1) == read(c.m, cell(c, loopctr_home(f)), W::B4)
            &&& get(d.r, T2) == read(c.m, cell(c, nthreads_home(f)), W::B4)
        }),
{
    broadcast use lemma_after_push;

}

/// The code between two threads raises the number of the thread, and goes to look for the next.
proof fn lemma_next_thread(f: Function, ra: u32, c: State) -> (d: State)
    requires
        unique_labels(function_text(f)),
    ensures
        goes(
            function_text(f),
            ra,
            place(function_text(f), None),
            c,
            spot_line(function_text(f), Spot::Check),
            d,
        ),
        d.m == raised(f, c),
        get(d.r, SP) == get(c.r, SP),
{
    let text = function_text(f);
    let st = before(f, f.blocks@.len());
    let p = counted(st, f);
    let name = "__loop_check"@;
    lemma_parts(f);
    lemma_epilogue_parts(st, f);
    lemma_raised(text, ra, c, st, f);
    lemma_starts_front(text, p.text, Asm::Jal(ZERO, name));
    lemma_line_of(text, "__loop_incr"@, st.text.len() as int);
    lemma_line_of(text, name, entered(f).text.len() as int);
    let d = lemma_on(text, ra, c, st.text, p.text);
    lemma_jumps(text, ra, st.text.len() as int, c, p.text.len() as int, d, at(text, name));
    d
}

/// Where the lines that look for the next thread stand.
proof fn lemma_check_stands(f: Function)
    requires
        unique_labels(function_text(f)),
        f.blocks@.len() > 0,
    ensures
        ({
            let text = function_text(f);
            let p = entered(f);
            let q = checked(p, f);
            &&& starts(text, q.text)
            &&& runs_on(p.text, q.text)
            &&& q.text.len() < text.len()
            &&& text[q.text.len() as int] == Asm::Branch(BCond::Ge, T1, T2, "__loop_end"@)
            &&& at(text, "__loop_check"@) == p.text.len()
            &&& at(text, block_name(0)) == q.text.len() + 1
            &&& has_line(text, "__loop_end"@)
        }),
{
    let text = function_text(f);
    let p = entered(f);
    let q = checked(p, f);
    lemma_parts(f);
    law_layout(f);
    lemma_prologue_parts(f);
    lemma_line_of(text, "__loop_check"@, p.text.len() as int);
    lemma_starts_front(text, q.text, Asm::Branch(BCond::Ge, T1, T2, "__loop_end"@));
    assert(at(text, block_name(0)) == before(f, 0).text.len());
}

proof fn lemma_check(f: Function, ra: u32, c: State) -> (d: State)
    requires
        unique_labels(function_text(f)),
        f.blocks@.len() > 0,
    ensures
        ({
            let t = if more(f, c) {
                Spot::Block(0)
            } else {
                Spot::End
            };
            let text = function_text(f);
            goes(text, ra, spot_line(text, Spot::Check), c, spot_line(text, t), d)
        }),
        d.m == c.m,
        get(d.r, SP) == get(c.r, SP),
{
    let text = function_text(f);
    let p = entered(f);
    let q = checked(p, f);
    lemma_check_stands(f);
    lemma_checked(text, ra, c, p, f);
    let d = lemma_on(text, ra, c, p.text, q.text);
    law_label_is_its_line(text, "__loop_end"@);
    lemma_branches(
        text,
        ra,
        p.text.len() as int,
        c,
        q.text.len() as int,
        d,
        at(text, "__loop_end"@),
    );
    d
}

/// Wherever a kernel is, its code goes on as the kernel does.
pub proof fn law_step(f: Function, ra: u32, s: Spot, c: State) -> (r: (Spot, State))
    requires
        lowerable(f),
        unique_labels(function_text(f)),
        has_runtime(function_text(f)),
        f.blocks@.len() > 0,
        spot_in(f, s),
    ensures
        goes_from(f, s, c, r.0, r.1),
        spot_in(f, r.0),
        goes(
            function_text(f),
            ra,
            spot_line(function_text(f), s),
            c,
            spot_line(function_text(f), r.0),
            r.1,
        ),
{
    let text = function_text(f);
    match s {
        Spot::Check => {
            let d = lemma_check(f, ra, c);
            if more(f, c) {
                (Spot::Block(0), d)
            } else {
                (Spot::End, d)
            }
        },
        Spot::Block(b) => {
            let r = law_block(f, ra, c, b);
            match r.0 {
                Some(t) => {
                    assert(block_did(f, b, c, r.0, r.1));
                    assert(led(f, r.0, r.1, Spot::Block(t), r.1));
                    (Spot::Block(t), r.1)
                },
                None => {
                    let d = lemma_next_thread(f, ra, r.1);
                    lemma_then(
                        text,
                        ra,
                        spot_line(text, s),
                        c,
                        place(text, None),
                        r.1,
                        spot_line(text, Spot::Check),
                        d,
                    );
                    assert(block_did(f, b, c, r.0, r.1));
                    assert(led(f, r.0, r.1, Spot::Check, d));
                    (Spot::Check, d)
                },
            }
        },
        Spot::End => {
            lemma_stay(text, ra, spot_line(text, s), c);
            (s, c)
        },
    }
}

/// However far a kernel has gone, its code has followed it.
pub proof fn law_walk(f: Function, ra: u32, s: Spot, c: State, n: nat) -> (r: (Spot, State))
    requires
        lowerable(f),
        unique_labels(function_text(f)),
        has_runtime(function_text(f)),
        f.blocks@.len() > 0,
        spot_in(f, s),
    ensures
        walked(f, s, c, r.0, r.1, n),
        spot_in(f, r.0),
        goes(
            function_text(f),
            ra,
            spot_line(function_text(f), s),
            c,
            spot_line(function_text(f), r.0),
            r.1,
        ),
    decreases n,
{
    let text = function_text(f);
    let i = spot_line(text, s);
    if n == 0 {
        lemma_stay(text, ra, i, c);
        (s, c)
    } else {
        let q = law_walk(f, ra, s, c, (n - 1) as nat);
        let r = law_step(f, ra, q.0, q.1);
        lemma_then(text, ra, i, c, spot_line(text, q.0), q.1, spot_line(text, r.0), r.1);
        assert(goes_from(f, q.0, q.1, r.0, r.1));
        r
    }
}

// ---- entry and exit ------------------------------------------------------------------------

/// The state with the frame made, on entry.
pub open spec fn framed(f: Function, c: State) -> State {
    State { r: wrote(c.r, SP, difference(get(c.r, SP), word(frame_size(f)))), ..c }
}

/// Memory with the return address and the first `n` parameters saved.
pub open spec fn saved(f: Function, n: nat, c: State) -> Mem
    decreases n,
{
    if n == 0 {
        written(c.m, cell(c, ra_home()), W::B4, get(c.r, RA))
    } else {
        let m = saved(f, (n - 1) as nat, c);
        let home = cell(c, param_home(n - 1));
        match param_loc(f.params@, (n - 1) as nat) {
            ArgLoc::Single(r) => written(m, home, W::B4, get(c.r, r)),
            ArgLoc::Pair(lo, hi) => written_wide(m, home, get(c.r, lo), get(c.r, hi)),
        }
    }
}

/// Memory on entry, in a frame that is made: what came in is saved, and the first thread is next.
pub open spec fn opened(f: Function, c: State) -> Mem {
    let n = f.params@.len();
    let m = written(
        saved(f, n, c),
        cell(c, nthreads_home(f)),
        W::B4,
        get(c.r, arg_reg(args_taken(f.params@, n))),
    );
    written(m, cell(c, loopctr_home(f)), W::B4, 0)
}

/// The lines that make the frame and save the return address.
spec fn frame_made(f: Function) -> St {
    let st = St { text: Seq::empty(), labels: 0 };
    let st = put(st, Asm::Li(T0, frame_size(f)));
    let st = put(st, Asm::Alu(AluOp::Sub, SP, SP, T0));
    let st = put_frame_addr(st, f, T0, ra_home());
    put(st, Asm::Store(StoreOp::Sw, RA, 0, T0))
}

/// Whether registers are those on entry but for `t0`.
spec fn untouched(c: State, d: State) -> bool {
    forall|r: u8| r != T0 ==> #[trigger] get(d.r, r) == get(c.r, r)
}

proof fn lemma_frame_made(text: Seq<Asm>, ra: u32, c: State, f: Function)
    ensures
        runs_on(Seq::empty(), frame_made(f).text),
        ({
            let d = after(text, ra, frame_made(f).text, 0, c);
            &&& d.m == saved(f, 0, framed(f, c))
            &&& untouched(framed(f, c), d)
        }),
{
    broadcast use {lemma_after_push, lemma_runs_on_push};

    lemma_runs_on_itself(Seq::empty());
    let st = St { text: Seq::empty(), labels: 0 };
    assert(after(text, ra, st.text, 0, c) == c);
}

proof fn lemma_param_regs(params: Seq<Ty>, n: nat)
    requires
        args_fit(params),
        n <= params.len(),
    ensures
        args_taken(params, n) < 8,
        n > 0 ==> match param_loc(params, (n - 1) as nat) {
            ArgLoc::Single(r) => 10 <= r <= 17,
            ArgLoc::Pair(lo, hi) => 10 <= lo <= 17 && 10 <= hi <= 17,
        },
{
    lemma_args_taken_mono(params, n, params.len());
}

proof fn lemma_saved(text: Seq<Asm>, ra: u32, c: State, f: Function, n: nat)
    requires
        args_fit(f.params@),
        n <= f.params@.len(),
    ensures
        runs_on(Seq::empty(), put_params(frame_made(f), f, n).text),
        ({
            let d = after(text, ra, put_params(frame_made(f), f, n).text, 0, c);
            &&& d.m == saved(f, n, framed(f, c))
            &&& untouched(framed(f, c), d)
        }),
    decreases n,
{
    broadcast use {lemma_after_push, lemma_runs_on_push};

    if n == 0 {
        lemma_frame_made(text, ra, c, f);
    } else {
        lemma_saved(text, ra, c, f, (n - 1) as nat);
        lemma_param_regs(f.params@, n);
        let p = put_params(frame_made(f), f, (n - 1) as nat);
        let q = put_frame_addr(p, f, T0, param_home(n - 1));
        let e = after(text, ra, q.text, 0, c);
        assert(get(e.r, T0) == cell(framed(f, c), param_home(n - 1)));
        assert(untouched(framed(f, c), e));
        assert(e.m == saved(f, (n - 1) as nat, framed(f, c)));
        assert(runs_on(Seq::empty(), q.text));
    }
}

proof fn lemma_opened(text: Seq<Asm>, ra: u32, c: State, f: Function)
    requires
        args_fit(f.params@),
    ensures
        runs_on(Seq::empty(), entered(f).text),
        ({
            let d = after(text, ra, entered(f).text, 0, c);
            &&& d.m == opened(f, framed(f, c))
            &&& untouched(framed(f, c), d)
        }),
{
    broadcast use {lemma_after_push, lemma_runs_on_push};

    let n = f.params@.len();
    lemma_saved(text, ra, c, f, n);
    lemma_param_regs(f.params@, n);
    let p = put_params(frame_made(f), f, n);
    let q = put_frame_addr(p, f, T0, nthreads_home(f));
    let e = after(text, ra, q.text, 0, c);
    assert(get(e.r, T0) == cell(framed(f, c), nthreads_home(f)));
    assert(untouched(framed(f, c), e));
    let r = arg_reg(args_taken(f.params@, n));
    assert(10 <= r <= 17);
    let q2 = put(q, Asm::Store(StoreOp::Sw, r, 0, T0));
    let q3 = put_frame_addr(q2, f, T0, loopctr_home(f));
    let e3 = after(text, ra, q3.text, 0, c);
    assert(get(e3.r, T0) == cell(framed(f, c), loopctr_home(f)));
    assert(untouched(framed(f, c), e3));
    assert(runs_on(Seq::empty(), q3.text));
    assert(entered(f) == put(q3, Asm::Store(StoreOp::Sw, ZERO, 0, T0)));
}

/// The code of a function, from its first line: it makes its frame, saves what came in, and from
/// there has followed the kernel, however far that has gone.
pub proof fn law_kernel(f: Function, ra: u32, c: State, n: nat) -> (r: (State, Spot, State))
    requires
        args_fit(f.params@),
        lowerable(f),
        unique_labels(function_text(f)),
        has_runtime(function_text(f)),
        f.blocks@.len() > 0,
    ensures
        r.0.m == opened(f, framed(f, c)),
        get(r.0.r, SP) == get(framed(f, c).r, SP),
        walked(f, Spot::Check, r.0, r.1, r.2, n),
        goes(function_text(f), ra, 0, c, spot_line(function_text(f), r.1), r.2),
{
    let text = function_text(f);
    let p = entered(f);
    lemma_parts(f);
    lemma_opened(text, ra, c, f);
    lemma_line_of(text, "__loop_check"@, p.text.len() as int);
    let e = lemma_on(text, ra, c, Seq::empty(), p.text);
    let r = law_walk(f, ra, Spot::Check, e, n);
    lemma_then(text, ra, 0, c, p.text.len() as int, e, spot_line(text, r.0), r.1);
    (e, r.0, r.1)
}

/// The registers that a kernel returns with.
pub open spec fn returns_with(f: Function, c: State, d: State) -> bool {
    let home = cell(c, retval_home(f));
    &&& d.m == c.m
    &&& !(f.ret is Void) ==> get(d.r, A0) == read(c.m, home, W::B4)
    &&& wide_ty(f.ret) ==> get(d.r, A1) == read(c.m, sum(home, 4), W::B4)
    &&& get(d.r, RA) == read(c.m, cell(c, ra_home()), W::B4)
    &&& get(d.r, SP) == sum(get(c.r, SP), word(frame_size(f)))
}

proof fn lemma_restored(text: Seq<Asm>, ra: u32, c: State, st: St, f: Function)
    ensures
        returns_with(f, c, after(text, ra, restored(st, f).text, st.text.len(), c)),
{
    broadcast use lemma_after_push;

    let n = st.text.len();
    let p = put(st, Asm::Label("__loop_end"@));
    let home = cell(c, retval_home(f));
    let q = if f.ret is Void {
        p
    } else {
        let q = put_frame_addr(p, f, T0, retval_home(f));
        let e = after(text, ra, q.text, n, c);
        assert(get(e.r, T0) == home);
        let q = put(q, Asm::Load(LoadOp::Lw, A0, 0, T0));
        if wide_ty(f.ret) {
            put(q, Asm::Load(LoadOp::Lw, A1, 4, T0))
        } else {
            q
        }
    };
    let e = after(text, ra, q.text, n, c);
    assert(e.m == c.m && get(e.r, SP) == get(c.r, SP));
    assert(!(f.ret is Void) ==> get(e.r, A0) == read(c.m, home, W::B4));
    assert(wide_ty(f.ret) ==> get(e.r, A1) == read(c.m, sum(home, 4), W::B4));
    let u = put_frame_addr(q, f, T0, ra_home());
    let g = after(text, ra, u.text, n, c);
    assert(get(g.r, T0) == cell(c, ra_home()));
}

/// At its end a kernel loads its return value and the return address from their homes, takes down
/// its frame, and returns.
pub proof fn law_exit(f: Function, ra: u32, c: State) -> (r: (int, State))
    requires
        unique_labels(function_text(f)),
    ensures
        goes(function_text(f), ra, spot_line(function_text(f), Spot::End), c, r.0, r.1),
        0 <= r.0 < function_text(f).len(),
        function_text(f)[r.0] == ret_asm(),
        returns_with(f, c, r.1),
{
    let text = function_text(f);
    let st = before(f, f.blocks@.len());
    let q = put(counted(st, f), Asm::Jal(ZERO, "__loop_check"@));
    let u = restored(q, f);
    lemma_parts(f);
    lemma_epilogue_parts(st, f);
    lemma_restored(text, ra, c, q, f);
    lemma_starts_front(text, u.text, ret_asm());
    lemma_line_of(text, "__loop_end"@, q.text.len() as int);
    let d = lemma_on(text, ra, c, q.text, u.text);
    (u.text.len() as int, d)
}

// ---- what came in --------------------------------------------------------------------------

/// A word of a frame after another word of it was written.
proof fn lemma_other_word(m: Mem, c: State, x: int, y: int, v: u32)
    requires
        0 <= x < 0x1000,
        0 <= y < 0x1000,
        x + 4 <= y || y + 4 <= x,
    ensures
        read(written(m, cell(c, x), W::B4, v), cell(c, y), W::B4) == read(m, cell(c, y), W::B4),
{
    law_words_are_apart(m, cell(c, x), cell(c, y), v);
}

proof fn lemma_few_params(params: Seq<Ty>, n: nat)
    ensures
        n <= args_taken(params, n),
    decreases n,
{
    if n > 0 {
        lemma_few_params(params, (n - 1) as nat);
    }
}

/// The words of parameter `i` in its home.
pub open spec fn param_arrived(f: Function, i: nat, c: State, m: Mem) -> bool {
    let home = cell(c, param_home(i as int));
    match param_loc(f.params@, i) {
        ArgLoc::Single(r) => read(m, home, W::B4) == get(c.r, r),
        ArgLoc::Pair(lo, hi) => {
            &&& read(m, home, W::B4) == get(c.r, lo)
            &&& read(m, sum(home, 4), W::B4) == get(c.r, hi)
        },
    }
}

/// Writing a word of the frame above the home of a parameter leaves it there.
proof fn lemma_param_stays(f: Function, i: nat, c: State, m: Mem, x: int, v: u32)
    requires
        param_arrived(f, i, c, m),
        param_home(i as int) + 8 <= x < 0x1000,
    ensures
        param_arrived(f, i, c, written(m, cell(c, x), W::B4, v)),
{
    let home = param_home(i as int);
    assert(sum(cell(c, home), 4) == cell(c, home + 4));
    lemma_other_word(m, c, x, home, v);
    lemma_other_word(m, c, x, home + 4, v);
}

proof fn lemma_params_saved(f: Function, n: nat, c: State, i: nat)
    requires
        i < n <= f.params@.len(),
        n < 8,
    ensures
        param_arrived(f, i, c, saved(f, n, c)),
    decreases n,
{
    let m = saved(f, (n - 1) as nat, c);
    let disp = param_home(n - 1);
    let home = cell(c, disp);
    assert(sum(home, 4) == cell(c, disp + 4));
    match param_loc(f.params@, (n - 1) as nat) {
        ArgLoc::Single(r) => {
            law_word_is_read_back(m, home, get(c.r, r));
            if i < n - 1 {
                lemma_params_saved(f, (n - 1) as nat, c, i);
                lemma_param_stays(f, i, c, m, disp, get(c.r, r));
            }
        },
        ArgLoc::Pair(lo, hi) => {
            let m1 = written(m, home, W::B4, get(c.r, lo));
            law_word_is_read_back(m, home, get(c.r, lo));
            law_word_is_read_back(m1, sum(home, 4), get(c.r, hi));
            lemma_other_word(m1, c, disp + 4, disp, get(c.r, hi));
            if i < n - 1 {
                lemma_params_saved(f, (n - 1) as nat, c, i);
                lemma_param_stays(f, i, c, m, disp, get(c.r, lo));
                lemma_param_stays(f, i, c, m1, disp + 4, get(c.r, hi));
            }
        },
    }
}

proof fn lemma_ra_saved(f: Function, n: nat, c: State)
    requires
        n < 8,
    ensures
        read(saved(f, n, c), cell(c, ra_home()), W::B4) == get(c.r, RA),
    decreases n,
{
    if n == 0 {
        law_word_is_read_back(c.m, cell(c, ra_home()), get(c.r, RA));
    } else {
        lemma_ra_saved(f, (n - 1) as nat, c);
        let m = saved(f, (n - 1) as nat, c);
        let disp = param_home(n - 1);
        assert(sum(cell(c, disp), 4) == cell(c, disp + 4));
        match param_loc(f.params@, (n - 1) as nat) {
            ArgLoc::Single(r) => lemma_other_word(m, c, disp, ra_home(), get(c.r, r)),
            ArgLoc::Pair(lo, hi) => {
                let m1 = written(m, cell(c, disp), W::B4, get(c.r, lo));
                lemma_other_word(m, c, disp, ra_home(), get(c.r, lo));
                lemma_other_word(m1, c, disp + 4, ra_home(), get(c.r, hi));
            },
        }
    }
}

/// On entry every parameter is in its home as it was passed, the number of threads and the return
/// address are in theirs, and the number of the thread is 0.
pub proof fn law_arguments_arrive(f: Function, c: State)
    requires
        args_fit(f.params@),
    ensures
        forall|i: nat|
            i < f.params@.len() ==> #[trigger] param_arrived(f, i, c, opened(f, c)),
        read(opened(f, c), cell(c, nthreads_home(f)), W::B4) == get(
            c.r,
            arg_reg(args_taken(f.params@, f.params@.len())),
        ),
        read(opened(f, c), cell(c, loopctr_home(f)), W::B4) == 0,
        read(opened(f, c), cell(c, ra_home()), W::B4) == get(c.r, RA),
{
    let n = f.params@.len();
    lemma_few_params(f.params@, n);
    let m = saved(f, n, c);
    let count = get(c.r, arg_reg(args_taken(f.params@, n)));
    let m1 = written(m, cell(c, nthreads_home(f)), W::B4, count);
    assert forall|i: nat| i < n implies #[trigger] param_arrived(f, i, c, opened(f, c)) by {
        lemma_params_saved(f, n, c, i);
        lemma_param_stays(f, i, c, m, nthreads_home(f), count);
        lemma_param_stays(f, i, c, m1, loopctr_home(f), 0);
    }
    law_word_is_read_back(m, cell(c, nthreads_home(f)), count);
    lemma_other_word(m1, c, loopctr_home(f), nthreads_home(f), 0);
    law_word_is_read_back(m1, cell(c, loopctr_home(f)), 0);
    lemma_ra_saved(f, n, c);
    lemma_other_word(m, c, nthreads_home(f), ra_home(), count);
    lemma_other_word(m1, c, loopctr_home(f), ra_home(), 0);
}

} // verus!
