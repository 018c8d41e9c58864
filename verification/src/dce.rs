//! Dead code elimination: every symbol that no chain of references connects
//! to an externally linked symbol is removed.

use crate::ir::{has_id, Linkage, Module, ModuleView, Value, ValueView};
use crate::merge::distinct;
use vstd::prelude::*;

verus! {

impl ModuleView {
    /// `id` names an externally linked symbol of the module.
    pub open spec fn is_root(self, id: u64) -> bool {
        exists|i: int|
            0 <= i < self.values.len() && (#[trigger] self.values[i]).id == id
                && self.values[i].linkage == Linkage::External
    }

    /// A definition of `from` refers to `to`.
    pub open spec fn refers(self, from: u64, to: u64) -> bool {
        exists|i: int|
            0 <= i < self.values.len() && (#[trigger] self.values[i]).id == from
                && self.values[i].body is Some && self.values[i].body.unwrap().contains(to)
    }

    /// `chain` starts at a root, and each of its symbols refers to the next.
    pub open spec fn is_chain(self, chain: Seq<u64>) -> bool {
        &&& chain.len() > 0
        &&& self.is_root(chain[0])
        &&& forall|k: int| 0 <= k < chain.len() - 1 ==> self.refers(#[trigger] chain[k], chain[k + 1])
    }

    /// A chain of references leads from a root to `id`.
    pub open spec fn reachable(self, id: u64) -> bool {
        exists|chain: Seq<u64>| self.is_chain(chain) && chain.last() == id
    }

    /// The test that a symbol passes to survive the sweep.
    pub open spec fn keeps(self) -> spec_fn(ValueView) -> bool {
        |v: ValueView| self.reachable(v.id)
    }

    /// The module without its unreachable symbols.
    pub open spec fn sweep(self) -> ModuleView {
        ModuleView { values: self.values.filter(self.keeps()), ..self }
    }

    /// A root is reachable.
    pub proof fn lemma_root_reachable(self, i: int)
        requires
            0 <= i < self.values.len(),
            self.values[i].linkage == Linkage::External,
        ensures
            self.reachable(self.values[i].id),
    {
        let chain = seq![self.values[i].id];
        assert(self.is_root(chain[0]));
        assert(self.is_chain(chain) && chain.last() == self.values[i].id);
    }

    /// What a reachable definition refers to is reachable.
    pub proof fn lemma_reference_reachable(self, i: int, t: int)
        requires
            0 <= i < self.values.len(),
            self.reachable(self.values[i].id),
            self.values[i].body is Some,
            0 <= t < self.values[i].body.unwrap().len(),
        ensures
            self.reachable(self.values[i].body.unwrap()[t]),
    {
        let from = self.values[i].id;
        let to = self.values[i].body.unwrap()[t];
        let chain = choose|chain: Seq<u64>| self.is_chain(chain) && chain.last() == from;
        let longer = chain.push(to);
        assert(self.refers(from, to));
        assert forall|k: int| 0 <= k < longer.len() - 1 implies self.refers(
            #[trigger] longer[k],
            longer[k + 1],
        ) by {
            if k < chain.len() - 1 {
                assert(self.refers(chain[k], chain[k + 1]));
            }
        }
        assert(self.is_chain(longer) && longer.last() == to);
    }
}

/// A filter that every element passes changes nothing.
proof fn lemma_filter_all<A>(s: Seq<A>, pred: spec_fn(A) -> bool)
    requires
        forall|i: int| 0 <= i < s.len() ==> pred(#[trigger] s[i]),
    ensures
        s.filter(pred) == s,
    decreases s.len(),
{
    reveal(Seq::filter);
    if s.len() > 0 {
        let front = s.drop_last();
        assert forall|i: int| 0 <= i < front.len() implies pred(#[trigger] front[i]) by {
            assert(front[i] == s[i]);
        }
        lemma_filter_all(front, pred);
        assert(pred(s.last()));
        assert(front.push(s.last()) =~= s);
    }
}

/// The sweep removes no reachable symbol: it keeps each one, with everything
/// it holds.
pub proof fn lemma_sweep_keeps_reachable(m: ModuleView, i: int)
    requires
        0 <= i < m.values.len(),
        m.reachable(m.values[i].id),
    ensures
        m.sweep().values.contains(m.values[i]),
{
    m.values.lemma_filter_contains(m.keeps(), i);
}

/// Whatever the sweep leaves was in the module and is reachable there.
pub proof fn lemma_sweep_leaves_reachable(m: ModuleView, j: int)
    requires
        0 <= j < m.sweep().values.len(),
    ensures
        m.values.contains(m.sweep().values[j]),
        m.reachable(m.sweep().values[j].id),
{
    let v = m.sweep().values[j];
    m.values.lemma_filter_pred(m.keeps(), j);
    assert(m.values.filter(m.keeps()).contains(v));
    m.values.lemma_filter_contains_rev(m.keeps(), v);
}

/// What is reachable before the sweep is reachable after it.
pub proof fn lemma_sweep_preserves_reachable(m: ModuleView, id: u64)
    requires
        m.reachable(id),
    ensures
        m.sweep().reachable(id),
{
    let s = m.sweep();
    let chain = choose|chain: Seq<u64>| m.is_chain(chain) && chain.last() == id;
    assert(s.is_root(chain[0])) by {
        let i = choose|i: int|
            0 <= i < m.values.len() && (#[trigger] m.values[i]).id == chain[0]
                && m.values[i].linkage == Linkage::External;
        m.lemma_root_reachable(i);
        lemma_sweep_keeps_reachable(m, i);
        let j = choose|j: int| 0 <= j < s.values.len() && s.values[j] == m.values[i];
        assert(s.values[j].id == chain[0]);
    }
    assert forall|k: int| 0 <= k < chain.len() - 1 implies s.refers(
        #[trigger] chain[k],
        chain[k + 1],
    ) by {
        assert(m.refers(chain[k], chain[k + 1]));
        let i = choose|i: int|
            0 <= i < m.values.len() && (#[trigger] m.values[i]).id == chain[k] && m.values[i].body
                is Some && m.values[i].body.unwrap().contains(chain[k + 1]);
        let front = chain.take(k + 1);
        assert forall|t: int| 0 <= t < front.len() - 1 implies m.refers(
            #[trigger] front[t],
            front[t + 1],
        ) by {
            assert(m.refers(chain[t], chain[t + 1]));
        }
        assert(m.is_chain(front) && front.last() == chain[k]);
        lemma_sweep_keeps_reachable(m, i);
        let j = choose|j: int| 0 <= j < s.values.len() && s.values[j] == m.values[i];
        assert(s.values[j].id == chain[k]);
    }
    assert(s.is_chain(chain));
}

/// The sweep leaves no reference dangling: what a kept definition refers to
/// is kept.
pub proof fn lemma_sweep_closed(m: ModuleView)
    requires
        m.closed(),
    ensures
        m.sweep().closed(),
{
    let s = m.sweep();
    assert forall|j: int, t: int|
        0 <= j < s.values.len() && s.values[j].body is Some && 0 <= t
            < s.values[j].body.unwrap().len() implies has_id(
        s.values,
        #[trigger] s.values[j].body.unwrap()[t],
    ) by {
        let v = s.values[j];
        let to = v.body.unwrap()[t];
        lemma_sweep_leaves_reachable(m, j);
        let i = choose|i: int| 0 <= i < m.values.len() && m.values[i] == v;
        m.lemma_reference_reachable(i, t);
        assert(has_id(m.values, m.values[i].body.unwrap()[t]));
        let target = choose|target: int|
            0 <= target < m.values.len() && (#[trigger] m.values[target]).id == to;
        lemma_sweep_keeps_reachable(m, target);
        let k = choose|k: int| 0 <= k < s.values.len() && s.values[k] == m.values[target];
        assert(s.values[k].id == to);
    }
}

/// A selection from symbols with distinct names has distinct names.
proof fn lemma_filter_distinct(values: Seq<ValueView>, pred: spec_fn(ValueView) -> bool)
    requires
        distinct(values),
    ensures
        distinct(values.filter(pred)),
    decreases values.len(),
{
    reveal(Seq::filter);
    if values.len() > 0 {
        let front = values.drop_last();
        let kept = front.filter(pred);
        assert(distinct(front)) by {
            assert forall|i: int, j: int| 0 <= i < j < front.len() implies (#[trigger] front[i]).id
                != (#[trigger] front[j]).id by {
                assert(values[i].id != values[j].id);
            }
        }
        lemma_filter_distinct(front, pred);
        if pred(values.last()) {
            let all = kept.push(values.last());
            assert forall|i: int, j: int| 0 <= i < j < all.len() implies (#[trigger] all[i]).id != (
            #[trigger] all[j]).id by {
                if j < kept.len() {
                    assert(kept[i].id != kept[j].id);
                } else {
                    assert(kept.contains(kept[i]));
                    front.lemma_filter_contains_rev(pred, kept[i]);
                    let k = choose|k: int| 0 <= k < front.len() && front[k] == kept[i];
                    assert(values[k].id != values[values.len() - 1].id);
                }
            }
        }
    }
}

/// The sweep brings no name in twice.
pub proof fn lemma_sweep_distinct(m: ModuleView)
    requires
        distinct(m.values),
    ensures
        distinct(m.sweep().values),
{
    lemma_filter_distinct(m.values, m.keeps());
}

/// Sweeping twice gives the module that sweeping once gives.
pub proof fn lemma_sweep_idempotent(m: ModuleView)
    ensures
        m.sweep().sweep() == m.sweep(),
{
    let s = m.sweep();
    assert forall|j: int| 0 <= j < s.values.len() implies (s.keeps())(#[trigger] s.values[j]) by {
        lemma_sweep_leaves_reachable(m, j);
        lemma_sweep_preserves_reachable(m, s.values[j].id);
    }
    lemma_filter_all(s.values, s.keeps());
}

/// Every symbol called `id` is marked.
spec fn marked(m: ModuleView, live: Seq<bool>, id: u64) -> bool {
    forall|k: int| 0 <= k < m.values.len() && (#[trigger] m.values[k]).id == id ==> live[k]
}

/// The first `upto` references of the symbol at `j` are marked.
spec fn refs_marked(m: ModuleView, live: Seq<bool>, j: int, upto: int) -> bool {
    m.values[j].body is Some ==> forall|t: int|
        0 <= t < upto && t < m.values[j].body.unwrap().len() ==> marked(
            m,
            live,
            #[trigger] m.values[j].body.unwrap()[t],
        )
}

/// All references of the symbol at `j` are marked.
spec fn all_refs_marked(m: ModuleView, live: Seq<bool>, j: int) -> bool {
    m.values[j].body is Some ==> refs_marked(m, live, j, m.values[j].body.unwrap().len() as int)
}

/// The roots among the first `upto` symbols are marked.
spec fn roots_marked(m: ModuleView, live: Seq<bool>, upto: int) -> bool {
    forall|i: int|
        0 <= i < upto && i < m.values.len() && (#[trigger] m.values[i]).linkage
            == Linkage::External ==> marked(m, live, m.values[i].id)
}

/// `b` marks whatever `a` marks.
spec fn grows(a: Seq<bool>, b: Seq<bool>) -> bool {
    a.len() == b.len() && forall|j: int| 0 <= j < a.len() && #[trigger] a[j] ==> b[j]
}

/// The number of unmarked positions.
spec fn unmarked(live: Seq<bool>) -> nat
    decreases live.len(),
{
    if live.len() == 0 {
        0
    } else {
        unmarked(live.drop_last()) + if live.last() {
            0nat
        } else {
            1nat
        }
    }
}

/// What holds of the marks and the work list while the sweep runs. The symbol
/// at `current`, if there is one, has its first `upto` references marked;
/// every other marked symbol that does not wait in the work list has all of
/// them marked.
spec fn sweeping(m: ModuleView, live: Seq<bool>, work: Seq<usize>, current: int, upto: int) -> bool {
    &&& live.len() == m.values.len()
    &&& forall|j: int| 0 <= j < live.len() && #[trigger] live[j] ==> m.reachable(m.values[j].id)
    &&& forall|j: int| 0 <= j < live.len() && #[trigger] live[j] ==> marked(m, live, m.values[j].id)
    &&& forall|w: int|
        0 <= w < work.len() ==> (#[trigger] work[w]) < live.len() && live[work[w] as int]
    &&& forall|j: int|
        0 <= j < live.len() && #[trigger] live[j] && j != current && !work.contains(j as usize)
            ==> all_refs_marked(m, live, j)
    &&& 0 <= current < live.len() ==> live[current] && refs_marked(m, live, current, upto)
}

proof fn lemma_unmarked_update(live: Seq<bool>, k: int)
    requires
        0 <= k < live.len(),
        !live[k],
    ensures
        unmarked(live.update(k, true)) + 1 == unmarked(live),
    decreases live.len(),
{
    let after = live.update(k, true);
    if k == live.len() - 1 {
        assert(after.drop_last() =~= live.drop_last());
    } else {
        assert(after.drop_last() =~= live.drop_last().update(k, true));
        lemma_unmarked_update(live.drop_last(), k);
    }
}

proof fn lemma_grows_marked(m: ModuleView, a: Seq<bool>, b: Seq<bool>, id: u64)
    requires
        a.len() == m.values.len(),
        grows(a, b),
        marked(m, a, id),
    ensures
        marked(m, b, id),
{
    assert forall|k: int| 0 <= k < m.values.len() && (#[trigger] m.values[k]).id == id implies b[k] by {
        assert(a[k]);
    }
}

proof fn lemma_grows_refs(m: ModuleView, a: Seq<bool>, b: Seq<bool>, j: int, upto: int)
    requires
        a.len() == m.values.len(),
        grows(a, b),
        refs_marked(m, a, j, upto),
    ensures
        refs_marked(m, b, j, upto),
{
    if m.values[j].body is Some {
        let body = m.values[j].body.unwrap();
        assert forall|t: int| 0 <= t < upto && t < body.len() implies marked(
            m,
            b,
            #[trigger] body[t],
        ) by {
            lemma_grows_marked(m, a, b, body[t]);
        }
    }
}

/// Marks every symbol called `id` and puts the newly marked ones on the work
/// list.
fn mark(
    module: &Module,
    id: u64,
    live: &mut Vec<bool>,
    work: &mut Vec<usize>,
    Ghost(current): Ghost<int>,
    Ghost(upto): Ghost<int>,
)
    requires
        sweeping(module@, old(live)@, old(work)@, current, upto),
        module@.reachable(id),
    ensures
        sweeping(module@, final(live)@, final(work)@, current, upto),
        grows(old(live)@, final(live)@),
        marked(module@, final(live)@, id),
        unmarked(final(live)@) + final(work)@.len() == unmarked(old(live)@) + old(work)@.len(),
{
    let ghost m = module@;
    let ghost live0 = live@;
    let ghost work0 = work@;
    let n: usize = module.values.len();
    let mut k: usize = 0;
    while k < n
        invariant
            k <= n,
            n == module.values.len(),
            m == module@,
            live0.len() == n,
            grows(live0, live@),
            forall|j: int| 0 <= j < k && (#[trigger] m.values[j]).id == id ==> live@[j],
            forall|j: int| 0 <= j < n && (#[trigger] m.values[j]).id != id ==> live@[j] == live0[j],
            forall|j: int| 0 <= j < n && #[trigger] live@[j] && !live0[j] ==> work@.contains(j as usize),
            work0.len() <= work@.len(),
            forall|w: int| 0 <= w < work0.len() ==> work@[w] == #[trigger] work0[w],
            forall|w: int| 0 <= w < work@.len() ==> (#[trigger] work@[w]) < n && live@[work@[w] as int],
            sweeping(m, live0, work0, current, upto),
            unmarked(live@) + work@.len() == unmarked(live0) + work0.len(),
        decreases n - k,
    {
        assert(m.values[k as int] == module.values[k as int]@);
        if module.values[k].id == id && !live[k] {
            let ghost live1 = live@;
            let ghost work1 = work@;
            live[k] = true;
            work.push(k);
            proof {
                assert(live@ =~= live1.update(k as int, true));
                lemma_unmarked_update(live1, k as int);
                assert(work@[work1.len() as int] == k);
                assert forall|j: int|
                    0 <= j < n && #[trigger] live@[j] && !live0[j] implies work@.contains(
                    j as usize,
                ) by {
                    if j != k {
                        assert(live1[j]);
                        let w = choose|w: int| 0 <= w < work1.len() && work1[w] == j as usize;
                        assert(work@[w] == j as usize);
                    }
                }
                assert forall|j: int| 0 <= j < live0.len() && #[trigger] live0[j] implies live@[j] by {
                    assert(live1[j]);
                }
            }
        }
        k += 1;
    }
    proof {
        let live1 = live@;
        let work1 = work@;
        assert forall|j: int| 0 <= j < n && #[trigger] live1[j] implies m.reachable(
            m.values[j].id,
        ) && marked(m, live1, m.values[j].id) by {
            if m.values[j].id != id {
                assert(live0[j]);
                lemma_grows_marked(m, live0, live1, m.values[j].id);
            }
        }
        assert forall|j: int|
            0 <= j < n && #[trigger] live1[j] && j != current && !work1.contains(
                j as usize,
            ) implies all_refs_marked(m, live1, j) by {
            assert(live0[j]);
            if work0.contains(j as usize) {
                let w = choose|w: int| 0 <= w < work0.len() && work0[w] == j as usize;
                assert(work1[w] == j as usize);
            }
            assert(all_refs_marked(m, live0, j));
            if m.values[j].body is Some {
                lemma_grows_refs(m, live0, live1, j, m.values[j].body.unwrap().len() as int);
            }
        }
        if 0 <= current < n {
            assert(live0[current]);
            lemma_grows_refs(m, live0, live1, current, upto);
        }
    }
}

/// For each symbol of `module`, whether the sweep keeps it: whether a chain
/// of references leads to it from an externally linked symbol.
pub fn live_values(module: &Module) -> (live: Vec<bool>)
    ensures
        live@.len() == module@.values.len(),
        forall|j: int|
            0 <= j < live@.len() ==> (#[trigger] live@[j] <==> module@.reachable(
                module@.values[j].id,
            )),
{
    let ghost m = module@;
    let n: usize = module.values.len();
    let mut live: Vec<bool> = Vec::new();
    let mut work: Vec<usize> = Vec::new();
    let mut i: usize = 0;
    while i < n
        invariant
            i <= n,
            live@.len() == i,
            forall|j: int| 0 <= j < i ==> !(#[trigger] live@[j]),
        decreases n - i,
    {
        live.push(false);
        i += 1;
    }
    assert(sweeping(m, live@, work@, -1, 0));
    let mut i: usize = 0;
    while i < n
        invariant
            i <= n,
            n == module.values.len(),
            m == module@,
            sweeping(m, live@, work@, -1, 0),
            roots_marked(m, live@, i as int),
        decreases n - i,
    {
        assert(m.values[i as int] == module.values[i as int]@);
        if module.values[i].linkage == Linkage::External {
            let ghost live1 = live@;
            proof {
                m.lemma_root_reachable(i as int);
            }
            mark(module, module.values[i].id, &mut live, &mut work, Ghost(-1), Ghost(0));
            proof {
                assert forall|r: int|
                    0 <= r < i + 1 && r < m.values.len() && (#[trigger] m.values[r]).linkage
                        == Linkage::External implies marked(m, live@, m.values[r].id) by {
                    if r < i {
                        lemma_grows_marked(m, live1, live@, m.values[r].id);
                    }
                }
            }
        }
        i += 1;
    }
    while work.len() > 0
        invariant
            n == module.values.len(),
            m == module@,
            sweeping(m, live@, work@, -1, 0),
            roots_marked(m, live@, n as int),
        decreases unmarked(live@) + work@.len(),
    {
        let ghost work1 = work@;
        let ghost measure = unmarked(live@) + work@.len();
        let j: usize = work.pop().unwrap();
        proof {
            assert(work1[work1.len() - 1] == j);
            assert forall|x: int|
                0 <= x < n && #[trigger] live@[x] && x != j && !work@.contains(
                    x as usize,
                ) implies all_refs_marked(m, live@, x) by {
                if work1.contains(x as usize) {
                    let w = choose|w: int| 0 <= w < work1.len() && work1[w] == x as usize;
                    assert(work@[w] == x as usize);
                }
            }
            assert(sweeping(m, live@, work@, j as int, 0));
            assert(m.values[j as int] == module.values[j as int]@);
        }
        match &module.values[j].body {
            Some(refs) => {
                let mut t: usize = 0;
                while t < refs.len()
                    invariant
                        t <= refs.len(),
                        j < n,
                        n == module.values.len(),
                        m == module@,
                        m.values[j as int].body == Some(refs@),
                        sweeping(m, live@, work@, j as int, t as int),
                        roots_marked(m, live@, n as int),
                        unmarked(live@) + work@.len() + 1 == measure,
                    decreases refs.len() - t,
                {
                    let ghost live1 = live@;
                    proof {
                        m.lemma_reference_reachable(j as int, t as int);
                    }
                    mark(module, refs[t], &mut live, &mut work, Ghost(j as int), Ghost(t as int));
                    proof {
                        assert forall|r: int|
                            0 <= r < n && (#[trigger] m.values[r]).linkage
                                == Linkage::External implies marked(m, live@, m.values[r].id) by {
                            lemma_grows_marked(m, live1, live@, m.values[r].id);
                        }
                        assert(refs_marked(m, live@, j as int, t + 1));
                    }
                    t += 1;
                }
                assert(all_refs_marked(m, live@, j as int));
            },
            None => {},
        }
        proof {
            assert(all_refs_marked(m, live@, j as int));
            assert forall|x: int|
                0 <= x < n && #[trigger] live@[x] && !work@.contains(
                    x as usize,
                ) implies all_refs_marked(m, live@, x) by {
                if x != j {
                    assert(all_refs_marked(m, live@, x));
                }
            }
        }
    }
    proof {
        assert forall|j: int| 0 <= j < live@.len() implies (#[trigger] live@[j] <==> m.reachable(
            m.values[j].id,
        )) by {
            if m.reachable(m.values[j].id) {
                let chain = choose|chain: Seq<u64>|
                    m.is_chain(chain) && chain.last() == m.values[j].id;
                lemma_chain_marked(m, live@, chain);
            }
        }
    }
    live
}

/// Once the work list is empty, the end of every chain is marked.
proof fn lemma_chain_marked(m: ModuleView, live: Seq<bool>, chain: Seq<u64>)
    requires
        sweeping(m, live, Seq::empty(), -1, 0),
        roots_marked(m, live, m.values.len() as int),
        m.is_chain(chain),
    ensures
        marked(m, live, chain.last()),
    decreases chain.len(),
{
    if chain.len() == 1 {
        let i = choose|i: int|
            0 <= i < m.values.len() && (#[trigger] m.values[i]).id == chain[0]
                && m.values[i].linkage == Linkage::External;
        assert(marked(m, live, m.values[i].id));
    } else {
        let shorter = chain.drop_last();
        assert forall|k: int| 0 <= k < shorter.len() - 1 implies m.refers(
            #[trigger] shorter[k],
            shorter[k + 1],
        ) by {
            assert(m.refers(chain[k], chain[k + 1]));
        }
        lemma_chain_marked(m, live, shorter);
        let from = chain[chain.len() - 2];
        let to = chain.last();
        assert(m.refers(from, to));
        let i = choose|i: int|
            0 <= i < m.values.len() && (#[trigger] m.values[i]).id == from && m.values[i].body
                is Some && m.values[i].body.unwrap().contains(to);
        assert(live[i]);
        assert(!Seq::<usize>::empty().contains(i as usize));
        assert(all_refs_marked(m, live, i));
        let body = m.values[i].body.unwrap();
        let t = choose|t: int| 0 <= t < body.len() && body[t] == to;
        assert(marked(m, live, body[t]));
    }
}

/// Removes from `module` every symbol that no chain of references connects to
/// an externally linked symbol. The symbols that stay keep their order and
/// everything they hold; the metadata is not touched.
pub fn dce_pass(module: &mut Module)
    ensures
        final(module)@ == old(module)@.sweep(),
{
    let ghost m = module@;
    let live = live_values(module);
    let mut all: Vec<Value> = Vec::new();
    core::mem::swap(&mut module.values, &mut all);
    let ghost values = all@.map_values(|v: Value| v@);
    assert(values =~= m.values);
    let mut kept: Vec<Value> = Vec::new();
    let n: usize = live.len();
    let mut i: usize = 0;
    proof {
        reveal(Seq::filter);
        assert(values.take(0) =~= Seq::<ValueView>::empty());
        assert(kept@.map_values(|v: Value| v@) =~= Seq::<ValueView>::empty());
    }
    for v in it: all
        invariant
            i == it.index(),
            it.seq().map_values(|v: Value| v@) == m.values,
            live@.len() == m.values.len(),
            live@.len() == n,
            forall|j: int|
                0 <= j < live@.len() ==> (#[trigger] live@[j] <==> m.reachable(m.values[j].id)),
            kept@.map_values(|v: Value| v@) == m.values.take(i as int).filter(m.keeps()),
    {
        proof {
            reveal(Seq::filter);
            assert(m.values.take(i + 1).drop_last() =~= m.values.take(i as int));
            assert(m.values.take(i + 1).last() == v@);
        }
        let ghost kept1 = kept@;
        if live[i] {
            kept.push(v);
            assert(kept@.map_values(|v: Value| v@) =~= kept1.map_values(|v: Value| v@).push(v@));
        }
        i += 1;
    }
    module.values = kept;
    proof {
        assert(m.values.take(m.values.len() as int) =~= m.values);
        assert(module@.annotations =~= m.annotations);
        assert(module@.used =~= m.used);
    }
}

} // verus!
