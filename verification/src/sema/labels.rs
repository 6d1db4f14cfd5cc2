//! The labels of a function body, each once and in order.

use vstd::prelude::*;
use vstd::string::*;

use crate::diag::names_view;
use crate::sema::c_ast::Stmt;
use crate::text::same;

verus! {

/// Whether `a` comes before `b` in the order of code points, from index `i` on.
pub open spec fn before_from(a: Seq<char>, b: Seq<char>, i: nat) -> bool
    decreases a.len() - i,
{
    if i >= b.len() {
        false
    } else if i >= a.len() {
        true
    } else if a[i as int] == b[i as int] {
        before_from(a, b, i + 1)
    } else {
        (a[i as int] as int) < (b[i as int] as int)
    }
}

pub open spec fn before(a: Seq<char>, b: Seq<char>) -> bool {
    before_from(a, b, 0)
}

/// A name put into an ordered list of names, unless it is there.
pub open spec fn with_name(v: Seq<Seq<char>>, n: Seq<char>) -> Seq<Seq<char>>
    decreases v.len(),
{
    if v.len() == 0 {
        seq![n]
    } else if v.last() == n {
        v
    } else if before(v.last(), n) {
        v.push(n)
    } else {
        with_name(v.drop_last(), n).push(v.last())
    }
}

/// The labels of a statement, put into a list.
pub open spec fn with_labels(v: Seq<Seq<char>>, s: Stmt) -> Seq<Seq<char>>
    decreases s, 0nat,
{
    match s {
        Stmt::Block { stmts, span } => with_labels_of(v, stmts@, stmts@.len()),
        Stmt::If { cond, then_branch, else_branch, span } => {
            let v = with_labels(v, *then_branch);
            match else_branch {
                Some(e) => with_labels(v, *e),
                None => v,
            }
        },
        Stmt::While { cond, body, span } => with_labels(v, *body),
        Stmt::DoWhile { body, cond, span } => with_labels(v, *body),
        Stmt::For { init, cond, step, body, span } => {
            let v = match init {
                Some(i) => with_labels(v, *i),
                None => v,
            };
            with_labels(v, *body)
        },
        Stmt::Switch { expr, body, span } => with_labels(v, *body),
        Stmt::Case { value, stmt, span } => with_labels(v, *stmt),
        Stmt::Default { stmt, span } => with_labels(v, *stmt),
        Stmt::Label { name, stmt, span } => with_labels(with_name(v, name@), *stmt),
        _ => v,
    }
}

/// The labels of the first `n` statements of a list.
pub open spec fn with_labels_of(v: Seq<Seq<char>>, ss: Seq<Stmt>, n: nat) -> Seq<Seq<char>>
    decreases ss, n,
{
    if n == 0 || n > ss.len() {
        v
    } else {
        with_labels(with_labels_of(v, ss, (n - 1) as nat), ss[n - 1])
    }
}

/// The labels of a body, each once, in order.
pub open spec fn labels_of(ss: Seq<Stmt>) -> Seq<Seq<char>> {
    with_labels_of(Seq::empty(), ss, ss.len())
}

fn comes_before(a: &str, b: &str) -> (r: bool)
    ensures
        r == before(a@, b@),
{
    let n: usize = a.unicode_len();
    let m: usize = b.unicode_len();
    let mut i: usize = 0;
    while i < n && i < m
        invariant
            n == a@.len(),
            m == b@.len(),
            i <= n,
            i <= m,
            before(a@, b@) == before_from(a@, b@, i as nat),
        decreases n - i,
    {
        let x: char = a.get_char(i);
        let y: char = b.get_char(i);
        if x != y {
            return (x as u32) < (y as u32);
        }
        i = i + 1;
    }
    i < m
}

fn insert_name(v: &mut Vec<String>, name: &str)
    ensures
        names_view(final(v)@) == with_name(names_view(old(v)@), name@),
    decreases old(v)@.len(),
{
    let ghost v0 = names_view(v@);
    match v.pop() {
        None => {
            v.push(name.to_owned());
            assert(names_view(v@) =~= seq![name@]);
        },
        Some(last) => {
            proof {
                assert(v0.last() == last@);
                assert(names_view(v@) =~= v0.drop_last());
            }
            if same(last.as_str(), name) {
                v.push(last);
                assert(names_view(v@) =~= v0);
            } else if comes_before(last.as_str(), name) {
                v.push(last);
                v.push(name.to_owned());
                assert(names_view(v@) =~= v0.push(name@));
            } else {
                insert_name(v, name);
                let ghost v1 = names_view(v@);
                v.push(last);
                assert(names_view(v@) =~= v1.push(last@));
            }
        },
    }
}

pub fn collect_labels(stmt: &Stmt, out: &mut Vec<String>)
    ensures
        names_view(final(out)@) == with_labels(names_view(old(out)@), *stmt),
    decreases stmt, 0nat,
{
    match stmt {
        Stmt::Block { stmts, .. } => {
            collect_labels_many(stmts, stmts.len(), out);
        },
        Stmt::If { then_branch, else_branch, .. } => {
            collect_labels(then_branch, out);
            if let Some(e) = else_branch {
                collect_labels(e, out);
            }
        },
        Stmt::While { body, .. } => {
            collect_labels(body, out);
        },
        Stmt::DoWhile { body, .. } => {
            collect_labels(body, out);
        },
        Stmt::For { init, body, .. } => {
            if let Some(i) = init {
                collect_labels(i, out);
            }
            collect_labels(body, out);
        },
        Stmt::Switch { body, .. } => {
            collect_labels(body, out);
        },
        Stmt::Case { stmt, .. } => {
            collect_labels(stmt, out);
        },
        Stmt::Default { stmt, .. } => {
            collect_labels(stmt, out);
        },
        Stmt::Label { name, stmt, .. } => {
            insert_name(out, name.as_str());
            collect_labels(stmt, out);
        },
        _ => {},
    }
}

/// Collects the labels of the first `n` statements.
pub fn collect_labels_many(stmts: &Vec<Stmt>, n: usize, out: &mut Vec<String>)
    requires
        n <= stmts@.len(),
    ensures
        names_view(final(out)@) == with_labels_of(names_view(old(out)@), stmts@, n as nat),
    decreases stmts, n,
{
    if n > 0 {
        collect_labels_many(stmts, n - 1, out);
        collect_labels(&stmts[n - 1], out);
    }
}

/// The labels of a body.
pub fn body_labels(stmts: &Vec<Stmt>) -> (r: Vec<String>)
    ensures
        names_view(r@) == labels_of(stmts@),
{
    let mut out: Vec<String> = Vec::new();
    assert(names_view(out@) =~= Seq::empty());
    collect_labels_many(stmts, stmts.len(), &mut out);
    out
}

/// Whether a name is in a list.
pub fn has_name(v: &Vec<String>, name: &str) -> (r: bool)
    ensures
        r == names_view(v@).contains(name@),
{
    let mut i: usize = 0;
    while i < v.len()
        invariant
            i <= v@.len(),
            forall|j: int| 0 <= j < i ==> (#[trigger] v@[j])@ != name@,
        decreases v@.len() - i,
    {
        if same(v[i].as_str(), name) {
            assert(names_view(v@)[i as int] == name@);
            return true;
        }
        i = i + 1;
    }
    assert forall|j: int| 0 <= j < names_view(v@).len() implies names_view(v@)[j] != name@ by {
        assert(v@[j]@ != name@);
    }
    false
}

// ---- laws ----------------------------------------------------------------------------------

proof fn lemma_before_total(a: Seq<char>, b: Seq<char>, i: nat)
    requires
        i <= a.len(),
        i <= b.len(),
        a.take(i as int) == b.take(i as int),
    ensures
        before_from(a, b, i) || before_from(b, a, i) || a == b,
        !(before_from(a, b, i) && before_from(b, a, i)),
        before_from(a, b, i) ==> a != b,
    decreases a.len() - i,
{
    if i < a.len() && i < b.len() {
        if a[i as int] == b[i as int] {
            assert(a.take(i as int + 1) =~= a.take(i as int).push(a[i as int]));
            assert(b.take(i as int + 1) =~= b.take(i as int).push(b[i as int]));
            lemma_before_total(a, b, i + 1);
        } else {
            assert(a[i as int] as int != b[i as int] as int);
        }
    } else if i >= a.len() && i >= b.len() {
        assert(a =~= a.take(i as int));
        assert(b =~= b.take(i as int));
    }
}

proof fn lemma_before_trans(a: Seq<char>, b: Seq<char>, c: Seq<char>, i: nat)
    requires
        before_from(a, b, i),
        before_from(b, c, i),
    ensures
        before_from(a, c, i),
    decreases a.len() - i,
{
    if i < a.len() && i < b.len() && i < c.len() {
        if a[i as int] == b[i as int] && b[i as int] == c[i as int] {
            lemma_before_trans(a, b, c, i + 1);
        }
    }
}

/// Each name comes before the next.
pub open spec fn ordered(v: Seq<Seq<char>>) -> bool {
    forall|i: int, j: int| 0 <= i < j < v.len() ==> before(#[trigger] v[i], #[trigger] v[j])
}

/// Putting a name into an ordered list keeps it ordered, and adds that name alone.
pub proof fn law_with_name(v: Seq<Seq<char>>, n: Seq<char>)
    requires
        ordered(v),
    ensures
        ordered(with_name(v, n)),
        forall|x: Seq<char>| #[trigger] with_name(v, n).contains(x) <==> v.contains(x) || x == n,
    decreases v.len(),
{
    if v.len() == 0 {
        assert(with_name(v, n)[0] == n);
    } else {
        let last = v.last();
        let front = v.drop_last();
        assert(v =~= front.push(last));
        assert(last.take(0) =~= n.take(0));
        lemma_before_total(last, n, 0);
        if last == n {
            assert(v[v.len() - 1] == n);
        } else if before(last, n) {
            let w = v.push(n);
            assert forall|i: int, j: int| 0 <= i < j < w.len() implies before(
                #[trigger] w[i],
                #[trigger] w[j],
            ) by {
                if j == v.len() && i < v.len() - 1 {
                    assert(before(v[i], v[v.len() - 1]));
                    lemma_before_trans(v[i], last, n, 0);
                }
            }
            assert forall|x: Seq<char>| #[trigger] w.contains(x) <==> v.contains(x) || x == n by {
                if v.contains(x) {
                    let k = choose|k: int| 0 <= k < v.len() && v[k] == x;
                    assert(w[k] == x);
                }
                if x == n {
                    assert(w[v.len() as int] == x);
                }
            }
        } else {
            assert forall|i: int, j: int| 0 <= i < j < front.len() implies before(
                #[trigger] front[i],
                #[trigger] front[j],
            ) by {
                assert(before(v[i], v[j]));
            }
            law_with_name(front, n);
            let m = with_name(front, n);
            let w = m.push(last);
            assert forall|i: int, j: int| 0 <= i < j < w.len() implies before(
                #[trigger] w[i],
                #[trigger] w[j],
            ) by {
                if j == m.len() {
                    assert(m.contains(m[i]));
                    if m[i] != n {
                        let k = choose|k: int| 0 <= k < front.len() && front[k] == m[i];
                        assert(before(v[k], v[v.len() - 1]));
                    }
                } else {
                    assert(before(m[i], m[j]));
                }
            }
            assert forall|x: Seq<char>| #[trigger] w.contains(x) <==> v.contains(x) || x == n by {
                if w.contains(x) {
                    let k = choose|k: int| 0 <= k < w.len() && w[k] == x;
                    if k == m.len() {
                        assert(v[v.len() - 1] == x);
                    } else {
                        assert(m.contains(x));
                        if x != n {
                            let q = choose|q: int| 0 <= q < front.len() && front[q] == x;
                            assert(v[q] == x);
                        }
                    }
                }
                if v.contains(x) {
                    let k = choose|k: int| 0 <= k < v.len() && v[k] == x;
                    if k == v.len() - 1 {
                        assert(w[m.len() as int] == x);
                    } else {
                        assert(front[k] == x);
                        assert(m.contains(x));
                        let q = choose|q: int| 0 <= q < m.len() && m[q] == x;
                        assert(w[q] == x);
                    }
                }
                if x == n {
                    assert(m.contains(x));
                    let q = choose|q: int| 0 <= q < m.len() && m[q] == x;
                    assert(w[q] == x);
                }
            }
        }
    }
}

proof fn lemma_with_labels_ordered(v: Seq<Seq<char>>, s: Stmt)
    requires
        ordered(v),
    ensures
        ordered(with_labels(v, s)),
    decreases s, 0nat,
{
    match s {
        Stmt::Block { stmts, span } => {
            lemma_with_labels_of_ordered(v, stmts@, stmts@.len());
        },
        Stmt::If { cond, then_branch, else_branch, span } => {
            lemma_with_labels_ordered(v, *then_branch);
            match else_branch {
                Some(e) => {
                    lemma_with_labels_ordered(with_labels(v, *then_branch), *e);
                },
                None => {},
            }
        },
        Stmt::While { cond, body, span } => {
            lemma_with_labels_ordered(v, *body);
        },
        Stmt::DoWhile { body, cond, span } => {
            lemma_with_labels_ordered(v, *body);
        },
        Stmt::For { init, cond, step, body, span } => {
            match init {
                Some(i) => {
                    lemma_with_labels_ordered(v, *i);
                    lemma_with_labels_ordered(with_labels(v, *i), *body);
                },
                None => {
                    lemma_with_labels_ordered(v, *body);
                },
            }
        },
        Stmt::Switch { expr, body, span } => {
            lemma_with_labels_ordered(v, *body);
        },
        Stmt::Case { value, stmt, span } => {
            lemma_with_labels_ordered(v, *stmt);
        },
        Stmt::Default { stmt, span } => {
            lemma_with_labels_ordered(v, *stmt);
        },
        Stmt::Label { name, stmt, span } => {
            law_with_name(v, name@);
            lemma_with_labels_ordered(with_name(v, name@), *stmt);
        },
        _ => {},
    }
}

proof fn lemma_with_labels_of_ordered(v: Seq<Seq<char>>, ss: Seq<Stmt>, n: nat)
    requires
        ordered(v),
    ensures
        ordered(with_labels_of(v, ss, n)),
    decreases ss, n,
{
    if n > 0 && n <= ss.len() {
        lemma_with_labels_of_ordered(v, ss, (n - 1) as nat);
        lemma_with_labels_ordered(with_labels_of(v, ss, (n - 1) as nat), ss[n - 1]);
    }
}

/// The labels of a body are in order, so that none occurs twice.
pub proof fn law_labels_are_ordered(ss: Seq<Stmt>)
    ensures
        ordered(labels_of(ss)),
{
    lemma_with_labels_of_ordered(Seq::empty(), ss, ss.len());
}

} // verus!
