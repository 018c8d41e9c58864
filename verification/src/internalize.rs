//! The visibility reducer: every defined symbol that is neither an entry
//! point nor explicitly retained becomes internal.

use crate::ir::{
    has_id, FunctionIter, GlobalIter, Linkage, MetadataNode, Module, ModuleView, OperandView, Operand,
    ValueKind, ValueView, Visibility,
};
use crate::merge::distinct;
use vstd::prelude::*;

verus! {

/// The symbol that an annotation marks as a kernel: the first operand of a
/// node whose second operand is the string `kernel`.
pub open spec fn kernel_of(node: Seq<OperandView>) -> Option<u64> {
    if node.len() >= 2 && node[1] == OperandView::Text("kernel"@) {
        match node[0] {
            OperandView::Value(id) => Some(id),
            _ => None,
        }
    } else {
        None
    }
}

/// The symbol that a node of the retained list names: its first operand.
pub open spec fn retained_of(node: Seq<OperandView>) -> Option<u64> {
    if node.len() >= 1 {
        match node[0] {
            OperandView::Value(id) => Some(id),
            _ => None,
        }
    } else {
        None
    }
}

/// What the reducer makes of one symbol, given the entry points and the
/// retained symbols.
///
/// A declaration stays as it is. A defined global becomes internal. A defined
/// function becomes external if it is retained, stays as it is if it is an
/// entry point, and becomes internal otherwise.
pub open spec fn internalized(v: ValueView, kernels: Set<u64>, retained: Set<u64>) -> ValueView {
    if v.is_declaration() {
        v
    } else {
        match v.kind {
            ValueKind::Global => v.with_linkage(Linkage::Internal, Visibility::Default),
            ValueKind::Function => if retained.contains(v.id) {
                v.with_linkage(Linkage::External, Visibility::Default)
            } else if kernels.contains(v.id) {
                v
            } else {
                v.with_linkage(Linkage::Internal, Visibility::Default)
            },
        }
    }
}

impl ModuleView {
    /// The symbols that the annotations mark as kernels.
    pub open spec fn entry_points(self) -> Set<u64> {
        Set::new(
            |id: u64|
                exists|k: int|
                    0 <= k < self.annotations.len() && kernel_of(#[trigger] self.annotations[k])
                        == Some(id),
        )
    }

    /// The symbols that the retained list names.
    pub open spec fn retained(self) -> Set<u64> {
        Set::new(
            |id: u64|
                exists|k: int|
                    0 <= k < self.used.len() && retained_of(#[trigger] self.used[k]) == Some(id),
        )
    }

    /// The module after the visibility reducer has run.
    pub open spec fn internalize(self) -> ModuleView {
        ModuleView {
            values: self.values.map_values(
                |v: ValueView| internalized(v, self.entry_points(), self.retained()),
            ),
            ..self
        }
    }
}

/// Running the reducer a second time changes nothing.
pub proof fn lemma_internalize_idempotent(m: ModuleView)
    ensures
        m.internalize().internalize() == m.internalize(),
{
    let once = m.internalize();
    assert(once.entry_points() =~= m.entry_points());
    assert(once.retained() =~= m.retained());
    assert(once.internalize().values =~= once.values);
}

/// The reducer changes linkage and visibility only: names, kinds and bodies
/// stay, and so no reference comes to dangle.
pub proof fn lemma_internalize_closed(m: ModuleView)
    requires
        m.closed(),
    ensures
        m.internalize().closed(),
        m.internalize().values.len() == m.values.len(),
        forall|i: int|
            0 <= i < m.values.len() ==> {
                let v = #[trigger] m.internalize().values[i];
                v.id == m.values[i].id && v.kind == m.values[i].kind && v.body == m.values[i].body
            },
{
    let r = m.internalize();
    assert forall|i: int, t: int|
        0 <= i < r.values.len() && r.values[i].body is Some && 0 <= t
            < r.values[i].body.unwrap().len() implies has_id(
        r.values,
        #[trigger] r.values[i].body.unwrap()[t],
    ) by {
        assert(has_id(m.values, m.values[i].body.unwrap()[t]));
        let target = choose|target: int|
            0 <= target < m.values.len() && (#[trigger] m.values[target]).id
                == m.values[i].body.unwrap()[t];
        assert(r.values[target].id == m.values[target].id);
    }
}

/// The reducer brings no name in twice.
pub proof fn lemma_internalize_distinct(m: ModuleView)
    requires
        distinct(m.values),
    ensures
        distinct(m.internalize().values),
{
    let r = m.internalize();
    assert forall|i: int, j: int| 0 <= i < j < r.values.len() implies (#[trigger] r.values[i]).id
        != (#[trigger] r.values[j]).id by {
        assert(m.values[i].id != m.values[j].id);
    }
}

/// The reducer leaves every declaration as it is, whether or not it is an
/// entry point or retained.
pub proof fn lemma_declarations_untouched(m: ModuleView, i: int)
    requires
        0 <= i < m.values.len(),
        m.values[i].is_declaration(),
    ensures
        m.internalize().values[i] == m.values[i],
{
}

/// A retained symbol is externally linked after the reducer has run exactly
/// when it is a defined function, or a declaration that was externally linked
/// before.
pub proof fn lemma_retained_external(m: ModuleView, i: int)
    requires
        0 <= i < m.values.len(),
        m.retained().contains(m.values[i].id),
    ensures
        m.internalize().values[i].linkage == Linkage::External <==> if m.values[i].is_declaration() {
            m.values[i].linkage == Linkage::External
        } else {
            m.values[i].kind == ValueKind::Function
        },
        !m.values[i].is_declaration() ==> m.internalize().values[i].visibility
            == Visibility::Default,
{
}

/// A defined function that is an entry point and is not retained keeps its
/// linkage and visibility.
pub proof fn lemma_entry_points_kept(m: ModuleView, i: int)
    requires
        0 <= i < m.values.len(),
        m.values[i].kind == ValueKind::Function,
        m.entry_points().contains(m.values[i].id),
        !m.retained().contains(m.values[i].id),
    ensures
        m.internalize().values[i] == m.values[i],
{
}

/// What is externally linked after the reducer has run, and so is a root for
/// the sweep: the declarations that were, the retained functions, and the
/// entry points that were.
pub proof fn lemma_external_after(m: ModuleView, i: int)
    requires
        0 <= i < m.values.len(),
    ensures
        m.internalize().values[i].linkage == Linkage::External <==> {
            let v = m.values[i];
            if v.is_declaration() {
                v.linkage == Linkage::External
            } else {
                v.kind == ValueKind::Function && (m.retained().contains(v.id) || (
                m.entry_points().contains(v.id) && v.linkage == Linkage::External))
            }
        },
{
}

/// In a module without entry points and without retained symbols, every
/// definition ends up internal with default visibility.
pub proof fn lemma_nothing_kept_without_roots(m: ModuleView, i: int)
    requires
        0 <= i < m.values.len(),
        m.entry_points() == Set::<u64>::empty(),
        m.retained() == Set::<u64>::empty(),
        !m.values[i].is_declaration(),
    ensures
        m.internalize().values[i] == m.values[i].with_linkage(
            Linkage::Internal,
            Visibility::Default,
        ),
{
}

/// Whether `id` occurs in `ids`.
fn contains_id(ids: &Vec<u64>, id: u64) -> (b: bool)
    ensures
        b == ids@.contains(id),
{
    let mut i: usize = 0;
    while i < ids.len()
        invariant
            i <= ids.len(),
            forall|j: int| 0 <= j < i ==> ids@[j] != id,
        decreases ids.len() - i,
    {
        if ids[i] == id {
            return true;
        }
        i += 1;
    }
    false
}

/// The symbol that `node` marks as a kernel, if it marks one.
fn kernel_in(node: &MetadataNode, marker: &String) -> (r: Option<u64>)
    requires
        marker@ == "kernel"@,
    ensures
        r == kernel_of(node@),
{
    if node.operands.len() >= 2 {
        let marked = match &node.operands[1] {
            Operand::Text(s) => *s == *marker,
            _ => false,
        };
        assert(marked == (node@[1] == OperandView::Text("kernel"@)));
        if marked {
            match &node.operands[0] {
                Operand::Value(id) => Some(*id),
                _ => None,
            }
        } else {
            None
        }
    } else {
        None
    }
}

/// The symbol that `node` names as retained, if it names one.
fn retained_in(node: &MetadataNode) -> (r: Option<u64>)
    ensures
        r == retained_of(node@),
{
    if node.operands.len() >= 1 {
        match &node.operands[0] {
            Operand::Value(id) => Some(*id),
            _ => None,
        }
    } else {
        None
    }
}

/// Collects the entry points of `module` from its annotations.
pub fn entry_points(module: &Module) -> (out: Vec<u64>)
    ensures
        out@.to_set() == module@.entry_points(),
{
    let marker = "kernel".to_owned();
    let mut out: Vec<u64> = Vec::new();
    let mut i: usize = 0;
    while i < module.annotations.len()
        invariant
            i <= module.annotations.len(),
            marker@ == "kernel"@,
            forall|id: u64|
                out@.contains(id) <==> exists|k: int|
                    0 <= k < i && kernel_of(#[trigger] module@.annotations[k]) == Some(id),
        decreases module.annotations.len() - i,
    {
        let ghost prev = out@;
        let found = kernel_in(&module.annotations[i], &marker);
        assert(module@.annotations[i as int] == module.annotations[i as int]@);
        if let Some(id) = found {
            out.push(id);
            assert(out@.last() == id);
            assert forall|x: u64| out@.contains(x) implies (exists|k: int|
                0 <= k < i + 1 && kernel_of(#[trigger] module@.annotations[k]) == Some(x)) by {
                let j = choose|j: int| 0 <= j < out@.len() && out@[j] == x;
                if j < prev.len() {
                    assert(prev[j] == x);
                    assert(prev.contains(x));
                }
            }
            assert forall|x: u64|
                (exists|k: int|
                    0 <= k < i + 1 && kernel_of(#[trigger] module@.annotations[k]) == Some(
                        x,
                    )) implies out@.contains(x) by {
                let k = choose|k: int|
                    0 <= k < i + 1 && kernel_of(#[trigger] module@.annotations[k]) == Some(x);
                if k < i {
                    assert(prev.contains(x));
                    let j = choose|j: int| 0 <= j < prev.len() && prev[j] == x;
                    assert(out@[j] == x);
                } else {
                    assert(out@[out@.len() - 1] == x);
                }
            }
        }
        i += 1;
    }
    assert(out@.to_set() =~= module@.entry_points());
    out
}

/// Collects the retained symbols of `module` from its retained list.
pub fn retained(module: &Module) -> (out: Vec<u64>)
    ensures
        out@.to_set() == module@.retained(),
{
    let mut out: Vec<u64> = Vec::new();
    let mut i: usize = 0;
    while i < module.used.len()
        invariant
            i <= module.used.len(),
            forall|id: u64|
                out@.contains(id) <==> exists|k: int|
                    0 <= k < i && retained_of(#[trigger] module@.used[k]) == Some(id),
        decreases module.used.len() - i,
    {
        let ghost prev = out@;
        let found = retained_in(&module.used[i]);
        assert(module@.used[i as int] == module.used[i as int]@);
        if let Some(id) = found {
            out.push(id);
            assert(out@.last() == id);
            assert forall|x: u64| out@.contains(x) implies (exists|k: int|
                0 <= k < i + 1 && retained_of(#[trigger] module@.used[k]) == Some(x)) by {
                let j = choose|j: int| 0 <= j < out@.len() && out@[j] == x;
                if j < prev.len() {
                    assert(prev[j] == x);
                    assert(prev.contains(x));
                }
            }
            assert forall|x: u64|
                (exists|k: int| 0 <= k < i + 1 && retained_of(#[trigger] module@.used[k]) == Some(x))
                implies out@.contains(x) by {
                let k = choose|k: int|
                    0 <= k < i + 1 && retained_of(#[trigger] module@.used[k]) == Some(x);
                if k < i {
                    assert(prev.contains(x));
                    let j = choose|j: int| 0 <= j < prev.len() && prev[j] == x;
                    assert(out@[j] == x);
                } else {
                    assert(out@[out@.len() - 1] == x);
                }
            }
        }
        i += 1;
    }
    assert(out@.to_set() =~= module@.retained());
    out
}

/// Runs the visibility reducer on `module`.
///
/// Declarations are left alone. Every defined global becomes internal. A
/// defined function that is retained becomes external, one that is an entry
/// point keeps its linkage, and every other becomes internal. Names, bodies,
/// the order of the symbols and the metadata do not change.
pub fn internalize_pass(module: &mut Module)
    ensures
        final(module)@ == old(module)@.internalize(),
{
    let ghost before = module@;
    let kernels = entry_points(module);
    let used = retained(module);
    let ghost ks = before.entry_points();
    let ghost rs = before.retained();

    let mut iter = FunctionIter::new(module);
    let ghost functions = iter@;
    let ghost mut done: int = 0;
    proof {
        assert(before.values.len() == module.values.len());
        before.lemma_handles(ValueKind::Function);
        assert(functions.skip(0) =~= functions);
    }
    loop
        invariant
            0 <= done <= functions.len(),
            iter@ == functions.skip(done),
            functions == before.handles(ValueKind::Function),
            ks == before.entry_points(),
            rs == before.retained(),
            kernels@.to_set() == ks,
            used@.to_set() == rs,
            module@.name == before.name,
            module@.annotations == before.annotations,
            module@.used == before.used,
            module@.values.len() == before.values.len(),
            forall|k: int|
                0 <= k < functions.len() ==> {
                    let h = #[trigger] functions[k];
                    h < before.values.len() && before.values[h as int].kind == ValueKind::Function
                },
            forall|i: int|
                0 <= i < before.values.len() ==> (#[trigger] module@.values[i]) == before.values[i]
                    || module@.values[i] == internalized(before.values[i], ks, rs),
            forall|k: int|
                0 <= k < done ==> module@.values[(#[trigger] functions[k]) as int] == internalized(
                    before.values[functions[k] as int],
                    ks,
                    rs,
                ),
        ensures
            done == functions.len(),
        decreases functions.len() - done,
    {
        let h: usize = match iter.next() {
            Some(h) => h,
            None => {
                break ;
            },
        };
        assert(h == functions[done]);
        let ghost prev = module@;
        assert(prev.values[h as int] == module.values[h as int]@);
        let id: u64 = module.values[h].id;
        let is_kernel = contains_id(&kernels, id);
        let is_decl = module.values[h].is_declaration();
        let is_used = contains_id(&used, id);
        if !is_decl {
            if !is_kernel {
                module.values[h].set_linkage(Linkage::Internal, Visibility::Default);
            }
            if is_used {
                module.values[h].set_linkage(Linkage::External, Visibility::Default);
            }
        }
        proof {
            assert(functions.skip(done).skip(1) =~= functions.skip(done + 1));
            assert(module@.values[h as int] == internalized(before.values[h as int], ks, rs));
            assert forall|i: int| 0 <= i < before.values.len() implies (
            #[trigger] module@.values[i]) == before.values[i] || module@.values[i] == internalized(
                before.values[i],
                ks,
                rs,
            ) by {
                if i != h {
                    assert(module@.values[i] == prev.values[i]);
                }
            }
            assert forall|k: int| 0 <= k < done + 1 implies module@.values[(
            #[trigger] functions[k]) as int] == internalized(
                before.values[functions[k] as int],
                ks,
                rs,
            ) by {
                if functions[k] != h {
                    assert(module@.values[functions[k] as int] == prev.values[functions[k] as int]);
                }
            }
            assert(module@.annotations =~= before.annotations);
            assert(module@.used =~= before.used);
            done = done + 1;
        }
    }

    let mut iter = GlobalIter::new(module);
    let ghost middle = module@;
    let ghost globals = iter@;
    let ghost mut done: int = 0;
    proof {
        assert(middle.values.len() == module.values.len());
        middle.lemma_handles(ValueKind::Global);
        assert(globals.skip(0) =~= globals);
        assert forall|i: int| 0 <= i < before.values.len() && before.values[i].kind
            == ValueKind::Function implies (#[trigger] module@.values[i]) == internalized(
            before.values[i],
            ks,
            rs,
        ) by {
            assert(functions.contains(i as usize));
            let k = choose|k: int| 0 <= k < functions.len() && functions[k] == i as usize;
            assert(module@.values[functions[k] as int] == internalized(
                before.values[functions[k] as int],
                ks,
                rs,
            ));
        }
        assert forall|k: int| 0 <= k < globals.len() implies {
            let h = #[trigger] globals[k];
            h < before.values.len() && before.values[h as int].kind == ValueKind::Global
        } by {
            let h = globals[k];
            assert(middle.values[h as int].kind == before.values[h as int].kind);
        }
    }
    loop
        invariant
            0 <= done <= globals.len(),
            iter@ == globals.skip(done),
            globals == middle.handles(ValueKind::Global),
            module@.name == before.name,
            module@.annotations == before.annotations,
            module@.used == before.used,
            module@.values.len() == before.values.len(),
            forall|k: int|
                0 <= k < globals.len() ==> {
                    let h = #[trigger] globals[k];
                    h < before.values.len() && before.values[h as int].kind == ValueKind::Global
                },
            forall|i: int|
                0 <= i < before.values.len() ==> (#[trigger] module@.values[i]) == before.values[i]
                    || module@.values[i] == internalized(before.values[i], ks, rs),
            forall|i: int|
                0 <= i < before.values.len() && before.values[i].kind == ValueKind::Function
                    ==> (#[trigger] module@.values[i]) == internalized(before.values[i], ks, rs),
            forall|k: int|
                0 <= k < done ==> module@.values[(#[trigger] globals[k]) as int] == internalized(
                    before.values[globals[k] as int],
                    ks,
                    rs,
                ),
        ensures
            done == globals.len(),
        decreases globals.len() - done,
    {
        let h: usize = match iter.next() {
            Some(h) => h,
            None => {
                break ;
            },
        };
        assert(h == globals[done]);
        let ghost prev = module@;
        assert(prev.values[h as int] == module.values[h as int]@);
        let is_decl = module.values[h].is_declaration();
        if !is_decl {
            module.values[h].set_linkage(Linkage::Internal, Visibility::Default);
        }
        proof {
            assert(globals.skip(done).skip(1) =~= globals.skip(done + 1));
            assert(module@.values[h as int] == internalized(before.values[h as int], ks, rs));
            assert forall|i: int| 0 <= i < before.values.len() implies (
            #[trigger] module@.values[i]) == before.values[i] || module@.values[i] == internalized(
                before.values[i],
                ks,
                rs,
            ) by {
                if i != h {
                    assert(module@.values[i] == prev.values[i]);
                }
            }
            assert forall|i: int|
                0 <= i < before.values.len() && before.values[i].kind
                    == ValueKind::Function implies (#[trigger] module@.values[i]) == internalized(
                before.values[i],
                ks,
                rs,
            ) by {
                assert(module@.values[i] == prev.values[i]);
            }
            assert forall|k: int| 0 <= k < done + 1 implies module@.values[(
            #[trigger] globals[k]) as int] == internalized(
                before.values[globals[k] as int],
                ks,
                rs,
            ) by {
                if globals[k] != h {
                    assert(module@.values[globals[k] as int] == prev.values[globals[k] as int]);
                }
            }
            assert(module@.annotations =~= before.annotations);
            assert(module@.used =~= before.used);
            done = done + 1;
        }
    }
    proof {
        assert forall|i: int| 0 <= i < before.values.len() implies module@.values[i]
            == before.internalize().values[i] by {
            if before.values[i].kind == ValueKind::Global {
                assert(middle.values[i].kind == ValueKind::Global);
                assert(globals.contains(i as usize));
                let k = choose|k: int| 0 <= k < globals.len() && globals[k] == i as usize;
                assert(module@.values[globals[k] as int] == internalized(
                    before.values[globals[k] as int],
                    ks,
                    rs,
                ));
            }
        }
        assert(module@.values =~= before.internalize().values);
    }
}

} // verus!
