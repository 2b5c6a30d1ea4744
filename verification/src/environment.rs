//! A scope mapping symbols to values. Copying an environment yields an
//! independent scope: later bindings in either copy are invisible to the
//! other, which is what realizes lexical closures here.

use vstd::prelude::*;

use crate::atoms::Symbol;
use crate::expression::Expression;
use crate::semantics::{assoc_get, assoc_set, EnvModel, Val};

verus! {

/// A scope: an ordered list of name-to-value bindings with at most one
/// binding per name, read through [`Environment::get`] and written in place
/// through [`Environment::set`].
#[derive(Debug)]
pub struct Environment {
    /// The bindings, in insertion order.
    pub entries: Vec<(Symbol, Expression)>,
}

impl View for Environment {
    type V = EnvModel;

    open spec fn view(&self) -> EnvModel {
        crate::semantics::env_view(self.entries@)
    }
}

impl Default for Environment {
    /// The empty scope.
    fn default() -> (r: Self)
        ensures
            r@ == EnvModel::empty(),
    {
        let r = Environment { entries: Vec::new() };
        proof {
            broadcast use crate::semantics::view_axioms;

            assert(r@ =~= EnvModel::empty());
        }
        r
    }
}

impl Environment {
    /// The position of the binding of the symbol, if there is one.
    fn find_index(&self, symbol: &Symbol) -> (r: Option<usize>)
        ensures
            match r {
                Some(i) => i < self@.len() && self@[i as int].0 == symbol@ && forall|j: int|
                    0 <= j < i ==> (#[trigger] self@[j]).0 != symbol@,
                None => forall|j: int| 0 <= j < self@.len() ==> (#[trigger] self@[j]).0 != symbol@,
            },
    {
        broadcast use crate::semantics::view_axioms;

        let n = self.entries.len();
        let mut i: usize = 0;
        while i < n
            invariant
                n == self.entries.len(),
                i <= n,
                forall|j: int| 0 <= j < i ==> (#[trigger] self@[j]).0 != symbol@,
            decreases n - i,
        {
            proof {
                broadcast use crate::semantics::view_axioms;

                assert(self@[i as int] == (self.entries@[i as int].0@, self.entries@[i as int].1@));
            }
            if self.entries[i].0.0 == symbol.0 {
                return Some(i);
            }
            i = i + 1;
        }
        None
    }

    /// Looks the symbol up; `None` when it is unbound.
    pub fn get(&self, symbol: &Symbol) -> (r: Option<&Expression>)
        ensures
            match r {
                Some(value) => assoc_get(self@, symbol@) == Some(value@),
                None => assoc_get(self@, symbol@) is None,
            },
    {
        broadcast use crate::semantics::view_axioms;

        match self.find_index(symbol) {
            Some(i) => {
                proof {
                    lemma_assoc_get_at(self@, symbol@, i as int);
                    let ghost k: int = i as int;
                    assert(self@[k] == (self.entries@[k].0@, self.entries@[k].1@));
                }
                Some(&self.entries[i].1)
            },
            None => {
                proof {
                    lemma_assoc_get_absent(self@, symbol@);
                }
                None
            },
        }
    }

    /// Binds the symbol to the value in this scope, in place: the existing
    /// binding is overwritten when there is one, and a new binding is
    /// appended otherwise.
    pub fn set(&mut self, symbol: Symbol, value: Expression)
        ensures
            final(self)@ == assoc_set(old(self)@, symbol@, value@),
    {
        broadcast use crate::semantics::view_axioms;

        let ghost env0: EnvModel = self@;
        let ghost entries0: Seq<(Symbol, Expression)> = self.entries@;
        let ghost sname: Seq<char> = symbol@;
        let ghost vval: Val = value@;
        match self.find_index(&symbol) {
            Some(i) => {
                self.entries.set(i, (symbol, value));
                proof {
                    assert forall|j: int| 0 <= j < entries0.len() implies self@[j] == env0.update(
                        i as int,
                        (sname, vval),
                    )[j] by {
                        assert(self@[j] == (self.entries@[j].0@, self.entries@[j].1@));
                        if j != i {
                            assert(env0[j] == (entries0[j].0@, entries0[j].1@));
                        }
                    }
                    assert(self@ =~= env0.update(i as int, (sname, vval)));
                    crate::semantics::lemma_assoc_set_found(env0, sname, vval, i as int);
                }
            },
            None => {
                self.entries.push((symbol, value));
                proof {
                    assert forall|j: int| 0 <= j <= entries0.len() implies self@[j] == env0.push(
                        (sname, vval),
                    )[j] by {
                        assert(self@[j] == (self.entries@[j].0@, self.entries@[j].1@));
                        if j < entries0.len() {
                            assert(env0[j] == (entries0[j].0@, entries0[j].1@));
                        }
                    }
                    assert(self@ =~= env0.push((sname, vval)));
                    crate::semantics::lemma_assoc_set_append(env0, sname, vval);
                }
            },
        }
    }

    /// An independent copy of this scope: later `set` calls on either scope
    /// do not affect the other.
    pub fn duplicate(&self) -> (r: Self)
        ensures
            r@ == self@,
        decreases self,
    {
        let r = Environment { entries: crate::expression::clone_bindings(&self.entries) };
        proof {
            broadcast use crate::semantics::view_axioms;

            assert(r@ =~~= self@);
        }
        r
    }
}

impl Clone for Environment {
    fn clone(&self) -> (r: Self)
        ensures
            r@ == self@,
    {
        self.duplicate()
    }
}

/// Text order on names, character by character by code point.
pub open spec fn lex_le(a: Seq<char>, b: Seq<char>) -> bool
    decreases a.len(),
{
    if a.len() == 0 {
        true
    } else if b.len() == 0 {
        false
    } else if (a[0] as int) < (b[0] as int) {
        true
    } else if (a[0] as int) > (b[0] as int) {
        false
    } else {
        lex_le(a.skip(1), b.skip(1))
    }
}

/// Any two names compare one way or the other.
pub proof fn lemma_lex_le_total(a: Seq<char>, b: Seq<char>)
    ensures
        lex_le(a, b) || lex_le(b, a),
    decreases a.len(),
{
    if a.len() > 0 && b.len() > 0 && a[0] == b[0] {
        lemma_lex_le_total(a.skip(1), b.skip(1));
    }
}

/// Text order runs through a middle name.
pub proof fn lemma_lex_le_trans(a: Seq<char>, b: Seq<char>, c: Seq<char>)
    requires
        lex_le(a, b),
        lex_le(b, c),
    ensures
        lex_le(a, c),
    decreases a.len(),
{
    if a.len() > 0 && b.len() > 0 && c.len() > 0 {
        if a[0] == b[0] && b[0] == c[0] {
            lemma_lex_le_trans(a.skip(1), b.skip(1), c.skip(1));
        }
    }
}

/// The length of the longest name among the bindings.
pub open spec fn name_width(m: EnvModel) -> int
    decreases m.len(),
{
    if m.len() == 0 {
        0
    } else if m.last().0.len() > name_width(m.drop_last()) {
        m.last().0.len() as int
    } else {
        name_width(m.drop_last())
    }
}

/// A run of spaces.
pub open spec fn spaces(n: int) -> Seq<char> {
    if n <= 0 {
        Seq::empty()
    } else {
        Seq::new(n as nat, |i: int| ' ')
    }
}

/// One line of the environment's rendering: the name right-aligned to the
/// given width, an arrow, and the value's text.
pub open spec fn env_line(entry: (Seq<char>, Val), width: int) -> Seq<char> {
    spaces(width - entry.0.len()) + entry.0 + " -> "@ + crate::semantics::render_val(entry.1)
}

/// The newline-separated lines of the bindings, in the order given.
pub open spec fn env_lines(m: EnvModel, width: int) -> Seq<char>
    decreases m.len(),
{
    if m.len() == 0 {
        Seq::empty()
    } else if m.len() == 1 {
        env_line(m[0], width)
    } else {
        env_line(m[0], width) + seq!['\n'] + env_lines(m.skip(1), width)
    }
}

/// The bindings stand in ascending name order.
pub open spec fn sorted_names(m: EnvModel) -> bool {
    forall|i: int| 0 <= i < m.len() - 1 ==> lex_le((#[trigger] m[i]).0, m[i + 1].0)
}

/// Whether the first name comes at or before the second in text order.
fn str_le(a: &str, b: &str) -> (r: bool)
    ensures
        r == lex_le(a@, b@),
{
    proof {
        assert(a@.skip(0) =~= a@);
        assert(b@.skip(0) =~= b@);
    }
    str_le_from(a, b, 0)
}

/// Whether the first name's suffix from `i` comes at or before the
/// second's.
fn str_le_from(a: &str, b: &str, i: usize) -> (r: bool)
    requires
        i <= a@.len(),
        i <= b@.len(),
    ensures
        r == lex_le(a@.skip(i as int), b@.skip(i as int)),
    decreases a@.len() - i,
{
    let la = a.unicode_len();
    let lb = b.unicode_len();
    if i >= la {
        proof {
            assert(a@.skip(i as int).len() == 0);
        }
        return true;
    }
    if i >= lb {
        proof {
            assert(b@.skip(i as int).len() == 0);
            assert(a@.skip(i as int).len() > 0);
        }
        return false;
    }
    proof {
        assert(a@.skip(i as int).skip(1) =~= a@.skip(i as int + 1));
        assert(b@.skip(i as int).skip(1) =~= b@.skip(i as int + 1));
    }
    let ca = a.get_char(i);
    let cb = b.get_char(i);
    if (ca as u32) < (cb as u32) {
        return true;
    }
    if (ca as u32) > (cb as u32) {
        return false;
    }
    str_le_from(a, b, i + 1)
}

/// The view of a binding list with one entry removed is the view with that
/// position removed.
proof fn lemma_env_view_remove(s: Seq<(Symbol, Expression)>, i: int)
    requires
        0 <= i < s.len(),
    ensures
        crate::semantics::env_view(s.remove(i)) =~= crate::semantics::env_view(s).remove(i),
{
    broadcast use crate::semantics::view_axioms;

    assert forall|j: int|
        0 <= j < s.len() - 1 implies crate::semantics::env_view(s.remove(i))[j]
        == crate::semantics::env_view(s).remove(i)[j] by {
        if j < i {
            assert(s.remove(i)[j] == s[j]);
        } else {
            assert(s.remove(i)[j] == s[j + 1]);
        }
    }
}

/// The view of a binding list with one entry appended is the view with
/// that binding's view appended.
proof fn lemma_env_view_push(s: Seq<(Symbol, Expression)>, p: (Symbol, Expression))
    ensures
        crate::semantics::env_view(s.push(p)) =~= crate::semantics::env_view(s).push((p.0@, p.1@)),
{
    broadcast use crate::semantics::view_axioms;

    assert forall|j: int|
        0 <= j < s.len() + 1 implies crate::semantics::env_view(s.push(p))[j]
        == crate::semantics::env_view(s).push((p.0@, p.1@))[j] by {
        if j < s.len() {
            assert(s.push(p)[j] == s[j]);
        } else {
            assert(s.push(p)[j] == p);
        }
    }
}

/// A run of spaces as text.
fn space_string(n: usize) -> (r: String)
    ensures
        r@ == spaces(n as int),
{
    let mut r = String::new();
    let mut i: usize = 0;
    while i < n
        invariant
            i <= n,
            r@.len() == i,
            forall|j: int| 0 <= j < i ==> r@[j] == ' ',
        decreases n - i,
    {
        r.append(" ");
        proof {
            reveal_strlit(" ");
        }
        i = i + 1;
    }
    proof {
        assert(r@ =~= spaces(n as int));
    }
    r
}

/// The newline-separated lines of the given bindings at the given width.
fn lines_of(entries: &[(Symbol, Expression)], width: usize) -> (r: String)
    ensures
        r@ == env_lines(crate::semantics::env_view(entries@), width as int),
    decreases entries@.len(),
{
    broadcast use crate::semantics::view_axioms;

    let ghost m = crate::semantics::env_view(entries@);
    if entries.len() == 0 {
        let r = String::new();
        proof {
            assert(r@ =~= env_lines(m, width as int));
        }
        return r;
    }
    proof {
        assert(m[0] == (entries@[0].0@, entries@[0].1@));
    }
    let name_len = entries[0].0.0.as_str().unicode_len();
    let pad = if width > name_len {
        width - name_len
    } else {
        0
    };
    let mut r = space_string(pad);
    r.append(entries[0].0.0.as_str());
    r.append(" -> ");
    let value_text = entries[0].1.render();
    r.append(value_text.as_str());
    proof {
        reveal_strlit(" -> ");
        assert(spaces(pad as int) == spaces(width - m[0].0.len()));
        assert(r@ =~= env_line(m[0], width as int));
    }
    if entries.len() > 1 {
        let rest = vstd::slice::slice_subrange(entries, 1, entries.len());
        proof {
            assert(crate::semantics::env_view(rest@) =~= m.skip(1));
        }
        let tail = lines_of(rest, width);
        r.append("\n");
        r.append(tail.as_str());
        proof {
            reveal_strlit("\n");
            assert(r@ =~= env_line(m[0], width as int) + seq!['\n'] + env_lines(
                m.skip(1),
                width as int,
            ));
        }
    }
    r
}

/// The position of a binding whose name comes at or before every other
/// binding's name.
fn min_name_index(work: &Vec<(Symbol, Expression)>) -> (r: usize)
    requires
        work@.len() > 0,
    ensures
        r < work@.len(),
        forall|k: int|
            0 <= k < work@.len() ==> lex_le(
                crate::semantics::env_view(work@)[r as int].0,
                (#[trigger] crate::semantics::env_view(work@)[k]).0,
            ),
{
    broadcast use crate::semantics::view_axioms;

    let ghost m = crate::semantics::env_view(work@);
    let n = work.len();
    let mut best: usize = 0;
    let mut j: usize = 1;
    proof {
        assert(m[0] == (work@[0].0@, work@[0].1@));
        lemma_lex_le_total(m[0].0, m[0].0);
    }
    while j < n
        invariant
            m == crate::semantics::env_view(work@),
            n == work@.len(),
            0 < n,
            best < j,
            j <= n,
            forall|k: int| 0 <= k < j ==> lex_le(m[best as int].0, (#[trigger] m[k]).0),
        decreases n - j,
    {
        proof {
            broadcast use crate::semantics::view_axioms;

            assert(m[j as int] == (work@[j as int].0@, work@[j as int].1@));
            assert(m[best as int] == (work@[best as int].0@, work@[best as int].1@));
        }
        let still = str_le(work[best].0.0.as_str(), work[j].0.0.as_str());
        if !still {
            proof {
                lemma_lex_le_total(m[best as int].0, m[j as int].0);
                assert(lex_le(m[j as int].0, m[best as int].0));
                assert forall|k: int| 0 <= k < j + 1 implies lex_le(
                    m[j as int].0,
                    (#[trigger] m[k]).0,
                ) by {
                    if k == j {
                        lemma_lex_le_total(m[j as int].0, m[j as int].0);
                    } else {
                        lemma_lex_le_trans(m[j as int].0, m[best as int].0, m[k].0);
                    }
                }
            }
            best = j;
        } else {
            proof {
                assert forall|k: int| 0 <= k < j + 1 implies lex_le(
                    m[best as int].0,
                    (#[trigger] m[k]).0,
                ) by {}
            }
        }
        j = j + 1;
    }
    best
}

impl Environment {
    /// The diagnostic listing of this scope: every binding on its own
    /// line, in ascending name order, names right-aligned to the longest
    /// name's width, each line `name -> value`.
    pub fn render(&self) -> (r: String)
        ensures
            exists|perm: EnvModel|
                {
                    &&& #[trigger] perm.to_multiset() == self@.to_multiset()
                    &&& sorted_names(perm)
                    &&& r@ == env_lines(perm, name_width(perm))
                },
    {
        broadcast use crate::semantics::view_axioms;
        broadcast use vstd::seq_lib::group_to_multiset_ensures;

        let mut work = crate::expression::clone_bindings(&self.entries);
        proof {
            assert(crate::semantics::env_view(work@) =~= self@);
        }
        let mut taken: Vec<(Symbol, Expression)> = Vec::new();
        loop
            invariant
                crate::semantics::env_view(taken@).to_multiset().add(
                    crate::semantics::env_view(work@).to_multiset(),
                ) == self@.to_multiset(),
                sorted_names(crate::semantics::env_view(taken@)),
                forall|i: int, j: int|
                    0 <= i < taken@.len() && 0 <= j < work@.len() ==> lex_le(
                        (#[trigger] crate::semantics::env_view(taken@)[i]).0,
                        (#[trigger] crate::semantics::env_view(work@)[j]).0,
                    ),
            ensures
                crate::semantics::env_view(taken@).to_multiset() == self@.to_multiset(),
                sorted_names(crate::semantics::env_view(taken@)),
            decreases work@.len(),
        {
            proof {
                broadcast use crate::semantics::view_axioms;
                broadcast use vstd::seq_lib::group_to_multiset_ensures;
            }
            if work.len() == 0 {
                proof {
                    assert(crate::semantics::env_view(work@) =~= EnvModel::empty());
                    assert(crate::semantics::env_view(work@).to_multiset() =~= vstd::multiset::Multiset::empty());
                    assert(crate::semantics::env_view(taken@).to_multiset().add(
                        vstd::multiset::Multiset::empty(),
                    ) =~= crate::semantics::env_view(taken@).to_multiset());
                }
                break ;
            }
            let best = min_name_index(&work);
            let ghost work_pre = work@;
            let ghost taken_pre = taken@;
            let picked = work.remove(best);
            let ghost pv = (picked.0@, picked.1@);
            taken.push(picked);
            proof {
                broadcast use crate::semantics::view_axioms;
                broadcast use vstd::seq_lib::group_to_multiset_ensures;

                assert(crate::semantics::env_view(work_pre)[best as int] == pv);
                lemma_env_view_remove(work_pre, best as int);
                lemma_env_view_push(taken_pre, (picked.0, picked.1));
                assert(work@ == work_pre.remove(best as int));
                assert(taken@ == taken_pre.push((picked.0, picked.1)));
                let tv_pre = crate::semantics::env_view(taken_pre);
                let wv_pre = crate::semantics::env_view(work_pre);
                assert(crate::semantics::env_view(taken@) =~= tv_pre.push(pv));
                assert(crate::semantics::env_view(work@) =~= wv_pre.remove(best as int));
                assert(tv_pre.push(pv).to_multiset() =~= tv_pre.to_multiset().insert(pv));
                assert(wv_pre.remove(best as int).to_multiset() =~= wv_pre.to_multiset().remove(
                    pv,
                ));
                assert(wv_pre.to_multiset().count(pv) > 0) by {
                    assert(wv_pre.contains(pv));
                }
                assert(tv_pre.to_multiset().insert(pv).add(wv_pre.to_multiset().remove(pv))
                    =~= tv_pre.to_multiset().add(wv_pre.to_multiset()));
                assert forall|i: int|
                    0 <= i < crate::semantics::env_view(taken@).len()
                        - 1 implies lex_le(
                    (#[trigger] crate::semantics::env_view(taken@)[i]).0,
                    crate::semantics::env_view(taken@)[i + 1].0,
                ) by {
                    assert(crate::semantics::env_view(taken@)[i] == if i < tv_pre.len() {
                        tv_pre[i]
                    } else {
                        pv
                    });
                }
                assert forall|i: int, j2: int|
                    0 <= i < taken@.len() && 0 <= j2 < work@.len() implies lex_le(
                        (#[trigger] crate::semantics::env_view(taken@)[i]).0,
                        (#[trigger] crate::semantics::env_view(work@)[j2]).0,
                    ) by {
                    let wj = crate::semantics::env_view(work@)[j2];
                    if j2 < best as int {
                        assert(wj == wv_pre[j2]);
                    } else {
                        assert(wj == wv_pre[j2 + 1]);
                    }
                    if i < tv_pre.len() {
                        assert(crate::semantics::env_view(taken@)[i] == tv_pre[i]);
                    } else {
                        assert(crate::semantics::env_view(taken@)[i] == pv);
                    }
                }
            }
        }
        let n = taken.len();
        let mut width: usize = 0;
        let mut i: usize = 0;
        proof {
            assert(crate::semantics::env_view(taken@).take(0) =~= EnvModel::empty());
        }
        while i < n
            invariant
                n == taken@.len(),
                i <= n,
                width as int == name_width(crate::semantics::env_view(taken@).take(i as int)),
            decreases n - i,
        {
            proof {
                broadcast use crate::semantics::view_axioms;

                assert(crate::semantics::env_view(taken@)[i as int] == (
                    taken@[i as int].0@,
                    taken@[i as int].1@,
                ));
                assert(crate::semantics::env_view(taken@).take(i as int + 1).drop_last()
                    =~= crate::semantics::env_view(taken@).take(i as int));
                assert(crate::semantics::env_view(taken@).take(i as int + 1).last()
                    == crate::semantics::env_view(taken@)[i as int]);
            }
            let name_len = taken[i].0.0.as_str().unicode_len();
            if name_len > width {
                width = name_len;
            }
            i = i + 1;
        }
        proof {
            assert(crate::semantics::env_view(taken@).take(n as int) =~= crate::semantics::env_view(
                taken@,
            ));
        }
        let r = lines_of(taken.as_slice(), width);
        proof {
            let perm = crate::semantics::env_view(taken@);
            assert(perm.to_multiset() == self@.to_multiset());
            assert(sorted_names(perm));
            assert(r@ == env_lines(perm, name_width(perm)));
        }
        r
    }
}

/// Reading at the position of the first binding of a name.
proof fn lemma_assoc_get_at(env: EnvModel, name: Seq<char>, i: int)
    requires
        0 <= i < env.len(),
        env[i].0 == name,
        forall|j: int| 0 <= j < i ==> (#[trigger] env[j]).0 != name,
    ensures
        assoc_get(env, name) == Some(env[i].1),
    decreases i,
{
    if i == 0 {
    } else {
        lemma_assoc_get_at(env.skip(1), name, i - 1);
        assert(env.skip(1)[i - 1] == env[i]);
        assert forall|j: int| 0 <= j < i - 1 implies (#[trigger] env.skip(1)[j]).0 != name by {
            assert(env.skip(1)[j] == env[j + 1]);
        }
    }
}

/// Reading a name that no binding carries.
proof fn lemma_assoc_get_absent(env: EnvModel, name: Seq<char>)
    requires
        forall|j: int| 0 <= j < env.len() ==> (#[trigger] env[j]).0 != name,
    ensures
        assoc_get(env, name) is None,
    decreases env.len(),
{
    if env.len() > 0 {
        assert forall|j: int| 0 <= j < env.skip(1).len() implies (#[trigger] env.skip(1)[j]).0
            != name by {
            assert(env.skip(1)[j] == env[j + 1]);
        }
        lemma_assoc_get_absent(env.skip(1), name);
    }
}

} // verus!
