//! What the code of an instruction does that branches within itself.
//!
//! Control moves from line to line of the whole text of a function. The laws here say where it is
//! after the lines of an instruction, and with which memory.

use vstd::prelude::*;

use crate::bir::{Function, ICmpPred, InstId, Ty, ValRef};
use crate::rv::check::wide_ty;
use crate::rv::enc::{
    signed, unique_labels, AluOp, Asm, BCond, ImmOp, A2, SP, T0, T1, T2, T3, T5, T6, ZERO,
};
use crate::rv::exec::{
    after, cell, exec, lemma_after_push, lemma_both_loaded, lemma_flag_bits, lemma_reload,
    lemma_reload_wide, lemma_store_result, lemma_store_result_wide, read, two_words, written,
    written_wide, State,
};
use crate::rv::lower::{
    fresh_name, home_of, inst_home, put, put_copy_value, put_lower_icmp_i64, put_lower_select,
    put_reload, put_reload_wide, put_store_result, spec_less_op, width, St, W,
};
use crate::rv::machine::{flag, get, lemma_line_of, line_of, sum};

verus! {

broadcast use crate::rv::machine::group_machine;

// ---- control -------------------------------------------------------------------------------

/// Whether control goes on from a line to the next, after a call at the latest.
pub open spec fn goes_on(a: Asm) -> bool {
    match a {
        Asm::Jal(rd, _) => rd != ZERO,
        Asm::Branch(_, _, _, _) | Asm::Jalr(_, _, _) | Asm::Auipc(_, _) => false,
        _ => true,
    }
}

/// Where control goes from a line, and with which state.
pub open spec fn next(text: Seq<Asm>, ra: u32, i: int, c: State) -> Option<(int, State)> {
    if i < 0 || i >= text.len() {
        None
    } else if goes_on(text[i]) {
        Some((i + 1, exec(text, ra, text[i], c)))
    } else {
        match text[i] {
            Asm::Jal(_, l) => match line_of(text, l) {
                Some(t) => Some((t, c)),
                None => None,
            },
            Asm::Branch(cond, x, y, l) => match line_of(text, l) {
                Some(t) => Some(
                    (
                        if cond.holds(get(c.r, x), get(c.r, y)) {
                            t
                        } else {
                            i + 1
                        },
                        c,
                    ),
                ),
                None => None,
            },
            _ => None,
        }
    }
}

/// Where control is after `n` lines.
pub open spec fn moved(text: Seq<Asm>, ra: u32, i: int, c: State, n: nat) -> Option<(int, State)>
    decreases n,
{
    if n == 0 {
        Some((i, c))
    } else {
        match next(text, ra, i, c) {
            Some((j, d)) => moved(text, ra, j, d, (n - 1) as nat),
            None => None,
        }
    }
}

/// Whether control goes from line `i` in state `c` to line `j` in state `d`.
#[verifier::opaque]
pub open spec fn goes(text: Seq<Asm>, ra: u32, i: int, c: State, j: int, d: State) -> bool {
    exists|n: nat| moved(text, ra, i, c, n) == Some((j, d))
}

proof fn lemma_moved_split(text: Seq<Asm>, ra: u32, i: int, c: State, n: nat, k: nat)
    ensures
        moved(text, ra, i, c, n) matches Some(p) ==> moved(text, ra, i, c, n + k) == moved(
            text,
            ra,
            p.0,
            p.1,
            k,
        ),
    decreases n,
{
    if n > 0 {
        if let Some((j, d)) = next(text, ra, i, c) {
            lemma_moved_split(text, ra, j, d, (n - 1) as nat, k);
        }
    }
}

pub proof fn lemma_stay(text: Seq<Asm>, ra: u32, i: int, c: State)
    ensures
        goes(text, ra, i, c, i, c),
{
    reveal(goes);
    assert(moved(text, ra, i, c, 0) == Some((i, c)));
}

pub proof fn lemma_then(text: Seq<Asm>, ra: u32, i: int, c: State, j: int, d: State, k: int, e: State)
    requires
        goes(text, ra, i, c, j, d),
        goes(text, ra, j, d, k, e),
    ensures
        goes(text, ra, i, c, k, e),
{
    reveal(goes);
    let n = choose|n: nat| moved(text, ra, i, c, n) == Some((j, d));
    let m = choose|m: nat| moved(text, ra, j, d, m) == Some((k, e));
    lemma_moved_split(text, ra, i, c, n, m);
    assert(moved(text, ra, i, c, n + m) == Some((k, e)));
}

pub proof fn lemma_next(text: Seq<Asm>, ra: u32, i: int, c: State, j: int, d: State, k: int, e: State)
    requires
        goes(text, ra, i, c, j, d),
        next(text, ra, j, d) == Some((k, e)),
    ensures
        goes(text, ra, i, c, k, e),
{
    assert(goes(text, ra, j, d, k, e)) by {
        reveal(goes);
        assert(moved(text, ra, k, e, 0) == Some((k, e)));
        assert(moved(text, ra, j, d, 1) == Some((k, e)));
    }
    lemma_then(text, ra, i, c, j, d, k, e);
}

/// Whether control goes on through the lines from index `from` on.
pub open spec fn straight(lines: Seq<Asm>, from: nat) -> bool
    decreases lines.len(),
{
    lines.len() <= from || (straight(lines.drop_last(), from) && goes_on(lines.last()))
}

pub broadcast proof fn lemma_straight_push(lines: Seq<Asm>, a: Asm, from: nat)
    ensures
        from <= lines.len() ==> #[trigger] straight(lines.push(a), from) == (straight(lines, from)
            && goes_on(a)),
{
    assert(lines.push(a).drop_last() =~= lines);
}

/// Whether some lines are the first of a text.
pub open spec fn starts(text: Seq<Asm>, lines: Seq<Asm>) -> bool {
    &&& lines.len() <= text.len()
    &&& text.take(lines.len() as int) == lines
}

pub proof fn lemma_starts_front(text: Seq<Asm>, lines: Seq<Asm>, a: Asm)
    requires
        starts(text, lines.push(a)),
    ensures
        starts(text, lines),
        text[lines.len() as int] == a,
{
    let all = lines.push(a);
    assert(text.take(lines.len() as int) =~= lines) by {
        assert forall|k: int| 0 <= k < lines.len() implies text[k] == lines[k] by {
            assert(text.take(all.len() as int)[k] == all[k]);
        }
    }
    assert(text.take(all.len() as int)[lines.len() as int] == a);
}

/// Lines that control goes straight through.
pub proof fn lemma_straight(
    text: Seq<Asm>,
    ra: u32,
    i: int,
    c: State,
    from: nat,
    d: State,
    lines: Seq<Asm>,
)
    requires
        goes(text, ra, i, c, from as int, d),
        from <= lines.len(),
        starts(text, lines),
        straight(lines, from),
    ensures
        goes(text, ra, i, c, lines.len() as int, after(text, ra, lines, from, d)),
    decreases lines.len(),
{
    if from < lines.len() {
        let front = lines.drop_last();
        assert(front.push(lines.last()) =~= lines);
        lemma_starts_front(text, front, lines.last());
        lemma_straight(text, ra, i, c, from, d, front);
        let e = after(text, ra, front, from, d);
        lemma_next(
            text,
            ra,
            i,
            c,
            front.len() as int,
            e,
            lines.len() as int,
            after(text, ra, lines, from, d),
        );
    }
}

pub proof fn lemma_starts_prefix(text: Seq<Asm>, lines: Seq<Asm>, front: Seq<Asm>)
    requires
        starts(text, lines),
        front.len() <= lines.len(),
        lines.take(front.len() as int) == front,
    ensures
        starts(text, front),
{
    assert(text.take(front.len() as int) =~= text.take(lines.len() as int).take(
        front.len() as int,
    ));
}

/// A branch from line `j` to line `t`, which defines its label.
pub proof fn lemma_branches(text: Seq<Asm>, ra: u32, i: int, c: State, j: int, d: State, t: int)
    requires
        unique_labels(text),
        goes(text, ra, i, c, j, d),
        0 <= j < text.len(),
        0 <= t < text.len(),
        text[j] matches Asm::Branch(cond, x, y, l) && text[t] == Asm::Label(l),
    ensures
        match text[j] {
            Asm::Branch(cond, x, y, l) => if cond.holds(get(d.r, x), get(d.r, y)) {
                goes(text, ra, i, c, t, d)
            } else {
                goes(text, ra, i, c, j + 1, d)
            },
            _ => true,
        },
{
    lemma_line_of(text, text[j]->Branch_3, t);
    match text[j] {
        Asm::Branch(cond, x, y, l) => {
            let k = if cond.holds(get(d.r, x), get(d.r, y)) {
                t
            } else {
                j + 1
            };
            lemma_next(text, ra, i, c, j, d, k, d);
        },
        _ => {},
    }
}

/// A jump from line `j` to line `t`, which defines its label.
pub proof fn lemma_jumps(text: Seq<Asm>, ra: u32, i: int, c: State, j: int, d: State, t: int)
    requires
        unique_labels(text),
        goes(text, ra, i, c, j, d),
        0 <= j < text.len(),
        0 <= t < text.len(),
        text[j] matches Asm::Jal(rd, l) && rd == ZERO && text[t] == Asm::Label(l),
    ensures
        goes(text, ra, i, c, t, d),
{
    lemma_line_of(text, text[j]->Jal_1, t);
    lemma_next(text, ra, i, c, j, d, t, d);
}

// ---- selection -----------------------------------------------------------------------------

/// Memory with the cell of a value copied to an address.
pub open spec fn copied(c: State, f: Function, v: ValRef, ty: Ty, at: u32) -> State {
    let from = cell(c, home_of(f, v));
    State {
        m: if wide_ty(ty) {
            written_wide(c.m, at, read(c.m, from, W::B4), read(c.m, sum(from, 4), W::B4))
        } else {
            written(c.m, at, width(ty), read(c.m, from, width(ty)))
        },
        ..c
    }
}

/// The code of a copy copies the cell of the value, and writes nothing else.
pub proof fn law_copy(
    text: Seq<Asm>,
    ra: u32,
    c: State,
    st: St,
    f: Function,
    v: ValRef,
    id: InstId,
    ty: Ty,
)
    ensures
        ({
            let d = after(text, ra, put_copy_value(st, f, v, id, ty).text, st.text.len(), c);
            &&& d.m == copied(c, f, v, ty, cell(c, inst_home(f, id))).m
            &&& get(d.r, SP) == get(c.r, SP)
        }),
{
    let n = st.text.len();
    if wide_ty(ty) {
        let p = put_reload_wide(st, f, v, T0, T1);
        lemma_reload_wide(text, ra, n, c, st, f, v, T0, T1);
        lemma_store_result_wide(text, ra, n, c, p, f, id, T0, T1);
    } else {
        let p = put_reload(st, f, v, T0, width(ty), false);
        lemma_reload(text, ra, n, c, st, f, v, T0, width(ty), false);
        lemma_store_result(text, ra, n, c, p, f, id, T0, width(ty));
    }
}

proof fn lemma_copy_is_straight(st: St, f: Function, v: ValRef, id: InstId, ty: Ty)
    ensures
        straight(put_copy_value(st, f, v, id, ty).text, st.text.len()),
        put_copy_value(st, f, v, id, ty).text.len() >= st.text.len(),
        put_copy_value(st, f, v, id, ty).text.take(st.text.len() as int) == st.text,
{
    broadcast use lemma_straight_push;

    assert(straight(st.text, st.text.len()));
    assert(put_copy_value(st, f, v, id, ty).text.take(st.text.len() as int) =~= st.text);
}

/// The code of a selection copies the first value to the cell of the instruction where the
/// condition is not zero, and the second where it is, and writes nothing else. Control is then
/// behind it.
pub proof fn law_selection(
    text: Seq<Asm>,
    ra: u32,
    c: State,
    st: St,
    f: Function,
    id: InstId,
    cond: ValRef,
    a: ValRef,
    b: ValRef,
    ty: Ty,
) -> (d: State)
    requires
        unique_labels(text),
        starts(text, put_lower_select(st, f, id, cond, a, b, ty).text),
    ensures
        goes(
            text,
            ra,
            st.text.len() as int,
            c,
            put_lower_select(st, f, id, cond, a, b, ty).text.len() as int,
            d,
        ),
        ({
            let v = if read(c.m, cell(c, home_of(f, cond)), W::B1) != 0 {
                a
            } else {
                b
            };
            d.m == copied(c, f, v, ty, cell(c, inst_home(f, id))).m
        }),
        get(d.r, SP) == get(c.r, SP),
{
    broadcast use {lemma_after_push, lemma_straight_push};

    let n = st.text.len();
    let i = n as int;
    let p = put_reload(st, f, cond, T0, W::B1, false);
    let els = fresh_name("select_false"@, p.labels + 1);
    let end = fresh_name("select_end"@, p.labels + 2);
    let q = put(St { labels: p.labels + 2, ..p }, Asm::Branch(BCond::Eq, T0, ZERO, els));
    let r = put_copy_value(q, f, a, id, ty);
    let r2 = put(r, Asm::Jal(ZERO, end));
    let r3 = put(r2, Asm::Label(els));
    let u = put_copy_value(r3, f, b, id, ty);
    let v = put(u, Asm::Label(end));
    assert(v == put_lower_select(st, f, id, cond, a, b, ty));
    lemma_copy_is_straight(q, f, a, id, ty);
    lemma_copy_is_straight(r3, f, b, id, ty);
    lemma_starts_front(text, u.text, Asm::Label(end));
    lemma_starts_prefix(text, u.text, r3.text);
    lemma_starts_front(text, r2.text, Asm::Label(els));
    lemma_starts_front(text, r.text, Asm::Jal(ZERO, end));
    lemma_starts_prefix(text, r.text, q.text);
    lemma_starts_front(text, p.text, Asm::Branch(BCond::Eq, T0, ZERO, els));
    lemma_stay(text, ra, i, c);
    assert(straight(st.text, n));
    assert(straight(p.text, n));
    lemma_straight(text, ra, i, c, n, c, p.text);
    lemma_reload(text, ra, n, c, st, f, cond, T0, W::B1, false);
    let c1 = after(text, ra, p.text, n, c);
    let at_else = r2.text.len() as int;
    let at_end = u.text.len() as int;
    lemma_branches(text, ra, i, c, p.text.len() as int, c1, at_else);
    if get(c1.r, T0) != 0 {
        lemma_straight(text, ra, i, c, q.text.len(), c1, r.text);
        law_copy(text, ra, c1, q, f, a, id, ty);
        let d = after(text, ra, r.text, q.text.len(), c1);
        lemma_jumps(text, ra, i, c, r.text.len() as int, d, at_end);
        lemma_next(text, ra, i, c, at_end, d, at_end + 1, exec(text, ra, Asm::Label(end), d));
        exec(text, ra, Asm::Label(end), d)
    } else {
        lemma_next(text, ra, i, c, at_else, c1, at_else + 1, exec(text, ra, Asm::Label(els), c1));
        let c2 = exec(text, ra, Asm::Label(els), c1);
        lemma_straight(text, ra, i, c, r3.text.len(), c2, u.text);
        law_copy(text, ra, c2, r3, f, b, id, ty);
        let d = after(text, ra, u.text, r3.text.len(), c2);
        lemma_next(text, ra, i, c, at_end, d, at_end + 1, exec(text, ra, Asm::Label(end), d));
        exec(text, ra, Asm::Label(end), d)
    }
}

// ---- comparison of two-word integers -------------------------------------------------------

/// Two words read as a two's-complement number.
pub open spec fn signed_words(lo: u32, hi: u32) -> int {
    if hi < 0x8000_0000 {
        two_words(lo, hi) + 0int
    } else {
        two_words(lo, hi) - 0x1_0000_0000_0000_0000
    }
}

/// Whether a comparison of two-word integers holds.
pub open spec fn wide_holds(pred: ICmpPred, xl: u32, xh: u32, yl: u32, yh: u32) -> bool {
    let (x, y) = (two_words(xl, xh), two_words(yl, yh));
    let (sx, sy) = (signed_words(xl, xh), signed_words(yl, yh));
    match pred {
        ICmpPred::Eq => x == y,
        ICmpPred::Ne => x != y,
        ICmpPred::Slt => sx < sy,
        ICmpPred::Sle => sx <= sy,
        ICmpPred::Sgt => sx > sy,
        ICmpPred::Sge => sx >= sy,
        ICmpPred::Ult => x < y,
        ICmpPred::Ule => x <= y,
        ICmpPred::Ugt => x > y,
        ICmpPred::Uge => x >= y,
    }
}

spec fn is_signed(pred: ICmpPred) -> bool {
    pred == ICmpPred::Slt || pred == ICmpPred::Sle || pred == ICmpPred::Sgt || pred
        == ICmpPred::Sge
}

/// Whether the first of two two-word integers is less, from their words.
pub open spec fn words_less(sign: bool, xl: u32, xh: u32, yl: u32, yh: u32) -> bool {
    if xh == yh {
        xl < yl
    } else if sign {
        signed(xh) < signed(yh)
    } else {
        xh < yh
    }
}

pub proof fn lemma_words_less(sign: bool, xl: u32, xh: u32, yl: u32, yh: u32)
    ensures
        words_less(sign, xl, xh, yl, yh) <==> if sign {
            signed_words(xl, xh) < signed_words(yl, yh)
        } else {
            two_words(xl, xh) < two_words(yl, yh)
        },
        two_words(xl, xh) == two_words(yl, yh) <==> xl == yl && xh == yh,
        signed_words(xl, xh) == signed_words(yl, yh) <==> xl == yl && xh == yh,
{
}

/// The text of a comparison up to its branch: whether the operands are equal is in `a2`, whether
/// their high words are in `t6`, and whether the first high word is less in `t5`.
spec fn compared(st: St, f: Function, sign: bool, a: ValRef, b: ValRef) -> St {
    let st = put_reload_wide(put_reload_wide(st, f, a, T0, T1), f, b, T2, T3);
    let st = put(st, Asm::Alu(AluOp::Xor, A2, T0, T2));
    let st = put(st, Asm::Alu(AluOp::Xor, T5, T1, T3));
    let st = put(st, Asm::Alu(AluOp::Or, A2, A2, T5));
    let st = put(st, Asm::Imm(ImmOp::Sltiu, A2, A2, 1));
    let st = put(st, Asm::Alu(AluOp::Xor, T6, T1, T3));
    let st = put(st, Asm::Imm(ImmOp::Sltiu, T6, T6, 1));
    put(st, Asm::Alu(spec_less_op(sign), T5, T1, T3))
}

proof fn lemma_compared(
    text: Seq<Asm>,
    ra: u32,
    c: State,
    st: St,
    f: Function,
    sign: bool,
    a: ValRef,
    b: ValRef,
)
    ensures
        ({
            let n = st.text.len();
            let t = compared(st, f, sign, a, b);
            let e = after(text, ra, t.text, n, c);
            let x = cell(c, home_of(f, a));
            let y = cell(c, home_of(f, b));
            let (xl, xh) = (read(c.m, x, W::B4), read(c.m, sum(x, 4), W::B4));
            let (yl, yh) = (read(c.m, y, W::B4), read(c.m, sum(y, 4), W::B4));
            &&& straight(t.text, n)
            &&& t.text.len() >= n
            &&& t.text.take(n as int) == st.text
            &&& e.m == c.m
            &&& get(e.r, SP) == get(c.r, SP)
            &&& get(e.r, T0) == xl
            &&& get(e.r, T2) == yl
            &&& get(e.r, A2) == flag(xl == yl && xh == yh)
            &&& get(e.r, T6) == flag(xh == yh)
            &&& get(e.r, T5) == flag(
                if sign {
                    signed(xh) < signed(yh)
                } else {
                    xh < yh
                },
            )
        }),
{
    broadcast use {lemma_after_push, lemma_straight_push};

    let n = st.text.len();
    let q = lemma_both_loaded(text, ra, c, st, f, a, b);
    let e = after(text, ra, q.text, n, c);
    lemma_flag_bits(get(e.r, T0), get(e.r, T2));
    lemma_flag_bits(get(e.r, T1), get(e.r, T3));
    lemma_or_is_zero(get(e.r, T0) ^ get(e.r, T2), get(e.r, T1) ^ get(e.r, T3));
    assert(straight(st.text, n));
    assert(compared(st, f, sign, a, b).text.take(n as int) =~= st.text);
}

pub proof fn lemma_or_is_zero(x: u32, y: u32)
    ensures
        x | y < 1 <==> x < 1 && y < 1,
{
    assert(x | y < 1 <==> x < 1 && y < 1) by (bit_vector);
}

/// The lines behind the branch: from whether the first operand is less, whether the comparison
/// holds.
spec fn concluded(st: St, pred: ICmpPred) -> St {
    match pred {
        ICmpPred::Sle | ICmpPred::Ule => put(st, Asm::Alu(AluOp::Or, T5, T5, A2)),
        ICmpPred::Sgt | ICmpPred::Ugt => put(
            put(st, Asm::Alu(AluOp::Or, T5, T5, A2)),
            Asm::Imm(ImmOp::Xori, T5, T5, 1),
        ),
        ICmpPred::Sge | ICmpPred::Uge => put(st, Asm::Imm(ImmOp::Xori, T5, T5, 1)),
        _ => st,
    }
}

proof fn lemma_concluded(
    text: Seq<Asm>,
    ra: u32,
    from: nat,
    c: State,
    st: St,
    f: Function,
    id: InstId,
    pred: ICmpPred,
    less: bool,
    equal: bool,
)
    requires
        from <= st.text.len(),
        straight(st.text, from),
        ({
            let b = after(text, ra, st.text, from, c);
            get(b.r, T5) == flag(less) && get(b.r, A2) == flag(equal)
        }),
        pred != ICmpPred::Eq && pred != ICmpPred::Ne,
    ensures
        ({
            let b = after(text, ra, st.text, from, c);
            let t = put_store_result(concluded(st, pred), f, id, T5, W::B1);
            let d = after(text, ra, t.text, from, c);
            let holds = match pred {
                ICmpPred::Slt | ICmpPred::Ult => less,
                ICmpPred::Sle | ICmpPred::Ule => less || equal,
                ICmpPred::Sgt | ICmpPred::Ugt => !(less || equal),
                _ => !less,
            };
            &&& straight(t.text, from)
            &&& t.text.len() >= st.text.len()
            &&& t.text.take(st.text.len() as int) == st.text
            &&& d.m == written(b.m, cell(b, inst_home(f, id)), W::B1, flag(holds))
            &&& get(d.r, SP) == get(b.r, SP)
        }),
{
    broadcast use {lemma_after_push, lemma_straight_push};

    lemma_flag_bits(0, 0);
    let p = concluded(st, pred);
    lemma_store_result(text, ra, from, c, p, f, id, T5, W::B1);
    let t = put_store_result(p, f, id, T5, W::B1);
    assert(t.text.take(st.text.len() as int) =~= st.text);
}

proof fn lemma_wide_ordering(
    text: Seq<Asm>,
    ra: u32,
    c: State,
    st: St,
    f: Function,
    id: InstId,
    pred: ICmpPred,
    a: ValRef,
    b: ValRef,
) -> (d: State)
    requires
        unique_labels(text),
        pred != ICmpPred::Eq && pred != ICmpPred::Ne,
        starts(text, put_lower_icmp_i64(st, f, id, pred, a, b).text),
    ensures
        goes(
            text,
            ra,
            0int + st.text.len(),
            c,
            0int + put_lower_icmp_i64(st, f, id, pred, a, b).text.len(),
            d,
        ),
        ({
            let x = cell(c, home_of(f, a));
            let y = cell(c, home_of(f, b));
            d.m == written(
                c.m,
                cell(c, inst_home(f, id)),
                W::B1,
                flag(
                    wide_holds(
                        pred,
                        read(c.m, x, W::B4),
                        read(c.m, sum(x, 4), W::B4),
                        read(c.m, y, W::B4),
                        read(c.m, sum(y, 4), W::B4),
                    ),
                ),
            )
        }),
        get(d.r, SP) == get(c.r, SP),
{
    let n = st.text.len();
    let i = 0int + n;
    let sign = is_signed(pred);
    let t = compared(st, f, sign, a, b);
    let lo = fresh_name("icmp64_lo_lt"@, t.labels + 1);
    let comb = fresh_name("icmp64_combine"@, t.labels + 2);
    let b0 = St { labels: t.labels + 2, ..t };
    let b1 = put(b0, Asm::Branch(BCond::Ne, T6, ZERO, lo));
    let b2 = put(b1, Asm::Jal(ZERO, comb));
    let b3 = put(b2, Asm::Label(lo));
    let b4 = put(b3, Asm::Alu(AluOp::Sltu, T5, T0, T2));
    let b5 = put(b4, Asm::Label(comb));
    let v = put_store_result(concluded(b5, pred), f, id, T5, W::B1);
    assert(v == put_lower_icmp_i64(st, f, id, pred, a, b));
    lemma_compared(text, ra, c, st, f, sign, a, b);
    let c1 = after(text, ra, t.text, n, c);
    let x = cell(c, home_of(f, a));
    let y = cell(c, home_of(f, b));
    let (xl, xh) = (read(c.m, x, W::B4), read(c.m, sum(x, 4), W::B4));
    let (yl, yh) = (read(c.m, y, W::B4), read(c.m, sum(y, 4), W::B4));
    lemma_words_less(sign, xl, xh, yl, yh);
    let less = words_less(sign, xl, xh, yl, yh);
    let equal = xl == yl && xh == yh;
    // The text is read up to each of these lines.
    lemma_prefixes(text, v, b5, b4, b3, b2, b1, t, f, id, pred, lo, comb);
    lemma_stay(text, ra, i, c);
    lemma_straight(text, ra, i, c, n, c, t.text);
    let at = 0int + t.text.len();
    lemma_branches(text, ra, i, c, at, c1, at + 2);
    let c3 = if xh == yh {
        // The low words decide.
        lemma_next(text, ra, i, c, at + 2, c1, at + 3, exec(text, ra, Asm::Label(lo), c1));
        let c2 = exec(text, ra, Asm::Label(lo), c1);
        let line = Asm::Alu(AluOp::Sltu, T5, T0, T2);
        lemma_next(text, ra, i, c, at + 3, c2, at + 4, exec(text, ra, line, c2));
        exec(text, ra, line, c2)
    } else {
        lemma_jumps(text, ra, i, c, at + 1, c1, at + 4);
        c1
    };
    assert(get(c3.r, T5) == flag(less) && get(c3.r, A2) == flag(equal));
    let from = b4.text.len();
    lemma_label_only(text, ra, c3, b4, comb);
    lemma_concluded(text, ra, from, c3, b5, f, id, pred, less, equal);
    lemma_straight(text, ra, i, c, from, c3, v.text);
    after(text, ra, v.text, from, c3)
}

/// The lines from a place in the text to another behind it, where control goes straight on.
pub proof fn lemma_through(text: Seq<Asm>, ra: u32, c: State, from: Seq<Asm>, lines: Seq<Asm>)
    requires
        from.len() <= lines.len(),
        starts(text, lines),
        straight(lines, from.len()),
    ensures
        goes(
            text,
            ra,
            0int + from.len(),
            c,
            0int + lines.len(),
            after(text, ra, lines, from.len(), c),
        ),
{
    lemma_stay(text, ra, 0int + from.len(), c);
    lemma_straight(text, ra, 0int + from.len(), c, from.len(), c, lines);
}

/// The code of a comparison of two-word integers stores 1 in the cell of the instruction where it
/// holds, and 0 where it does not, and writes nothing else. Control is then behind it.
pub proof fn law_wide_comparison(
    text: Seq<Asm>,
    ra: u32,
    c: State,
    st: St,
    f: Function,
    id: InstId,
    pred: ICmpPred,
    a: ValRef,
    b: ValRef,
) -> (d: State)
    requires
        unique_labels(text),
        starts(text, put_lower_icmp_i64(st, f, id, pred, a, b).text),
    ensures
        goes(
            text,
            ra,
            0int + st.text.len(),
            c,
            0int + put_lower_icmp_i64(st, f, id, pred, a, b).text.len(),
            d,
        ),
        ({
            let x = cell(c, home_of(f, a));
            let y = cell(c, home_of(f, b));
            d.m == written(
                c.m,
                cell(c, inst_home(f, id)),
                W::B1,
                flag(
                    wide_holds(
                        pred,
                        read(c.m, x, W::B4),
                        read(c.m, sum(x, 4), W::B4),
                        read(c.m, y, W::B4),
                        read(c.m, sum(y, 4), W::B4),
                    ),
                ),
            )
        }),
        get(d.r, SP) == get(c.r, SP),
{
    if pred == ICmpPred::Eq || pred == ICmpPred::Ne {
        let v = put_lower_icmp_i64(st, f, id, pred, a, b);
        lemma_wide_equality(text, ra, c, st, f, id, pred, a, b);
        lemma_through(text, ra, c, st.text, v.text);
        after(text, ra, v.text, st.text.len(), c)
    } else {
        lemma_wide_ordering(text, ra, c, st, f, id, pred, a, b)
    }
}

proof fn lemma_wide_equality(
    text: Seq<Asm>,
    ra: u32,
    c: State,
    st: St,
    f: Function,
    id: InstId,
    pred: ICmpPred,
    a: ValRef,
    b: ValRef,
)
    requires
        pred == ICmpPred::Eq || pred == ICmpPred::Ne,
    ensures
        ({
            let n = st.text.len();
            let v = put_lower_icmp_i64(st, f, id, pred, a, b);
            let d = after(text, ra, v.text, n, c);
            let x = cell(c, home_of(f, a));
            let y = cell(c, home_of(f, b));
            &&& v.text.len() >= n
            &&& straight(v.text, n)
            &&& d.m == written(
                c.m,
                cell(c, inst_home(f, id)),
                W::B1,
                flag(
                    wide_holds(
                        pred,
                        read(c.m, x, W::B4),
                        read(c.m, sum(x, 4), W::B4),
                        read(c.m, y, W::B4),
                        read(c.m, sum(y, 4), W::B4),
                    ),
                ),
            )
            &&& get(d.r, SP) == get(c.r, SP)
        }),
{
    broadcast use {lemma_after_push, lemma_straight_push};

    let n = st.text.len();
    let q = lemma_both_loaded(text, ra, c, st, f, a, b);
    let e = after(text, ra, q.text, n, c);
    lemma_flag_bits(get(e.r, T0), get(e.r, T2));
    lemma_flag_bits(get(e.r, T1), get(e.r, T3));
    lemma_or_is_zero(get(e.r, T0) ^ get(e.r, T2), get(e.r, T1) ^ get(e.r, T3));
    lemma_words_less(false, get(e.r, T0), get(e.r, T1), get(e.r, T2), get(e.r, T3));
    assert(straight(st.text, n));
    let q = put(q, Asm::Alu(AluOp::Xor, A2, T0, T2));
    let q = put(q, Asm::Alu(AluOp::Xor, T5, T1, T3));
    let q = put(q, Asm::Alu(AluOp::Or, A2, A2, T5));
    let q = put(q, Asm::Imm(ImmOp::Sltiu, A2, A2, 1));
    let q = if pred == ICmpPred::Ne {
        put(q, Asm::Imm(ImmOp::Xori, A2, A2, 1))
    } else {
        q
    };
    lemma_store_result(text, ra, n, c, q, f, id, A2, W::B1);
    assert(put_store_result(q, f, id, A2, W::B1) == put_lower_icmp_i64(st, f, id, pred, a, b));
}

pub proof fn lemma_label_only(text: Seq<Asm>, ra: u32, c: State, st: St, label: Seq<char>)
    ensures
        ({
            let t = put(st, Asm::Label(label));
            let d = after(text, ra, t.text, st.text.len(), c);
            &&& straight(t.text, st.text.len())
            &&& d == c
        }),
{
    broadcast use {lemma_after_push, lemma_straight_push};

    assert(straight(st.text, st.text.len()));
}

proof fn lemma_prefixes(
    text: Seq<Asm>,
    v: St,
    b5: St,
    b4: St,
    b3: St,
    b2: St,
    b1: St,
    t: St,
    f: Function,
    id: InstId,
    pred: ICmpPred,
    lo: Seq<char>,
    comb: Seq<char>,
)
    requires
        starts(text, v.text),
        v == put_store_result(concluded(b5, pred), f, id, T5, W::B1),
        b5.text == b4.text.push(Asm::Label(comb)),
        b4.text == b3.text.push(Asm::Alu(AluOp::Sltu, T5, T0, T2)),
        b3.text == b2.text.push(Asm::Label(lo)),
        b2.text == b1.text.push(Asm::Jal(ZERO, comb)),
        b1.text == t.text.push(Asm::Branch(BCond::Ne, T6, ZERO, lo)),
    ensures
        starts(text, t.text),
        b5.text.len() == t.text.len() + 5,
        b5.text.len() <= text.len(),
        text[0int + t.text.len()] == Asm::Branch(BCond::Ne, T6, ZERO, lo),
        text[1int + t.text.len()] == Asm::Jal(ZERO, comb),
        text[2int + t.text.len()] == Asm::Label(lo),
        text[3int + t.text.len()] == Asm::Alu(AluOp::Sltu, T5, T0, T2),
        text[4int + t.text.len()] == Asm::Label(comb),
{
    assert(v.text.take(0int + b5.text.len()) =~= b5.text);
    lemma_starts_prefix(text, v.text, b5.text);
    lemma_starts_front(text, b4.text, Asm::Label(comb));
    lemma_starts_front(text, b3.text, Asm::Alu(AluOp::Sltu, T5, T0, T2));
    lemma_starts_front(text, b2.text, Asm::Label(lo));
    lemma_starts_front(text, b1.text, Asm::Jal(ZERO, comb));
    lemma_starts_front(text, t.text, Asm::Branch(BCond::Ne, T6, ZERO, lo));
}

} // verus!
