//! The module merger: the units are linked, one after the other, into one
//! accumulator module.

use crate::internalize::{kernel_of, retained_of};
use crate::ir::{has_id, Module, ModuleView, OperandView, Value, ValueView};
use vstd::prelude::*;

verus! {

/// Why two modules cannot be linked.
#[derive(Clone, Copy, Debug, PartialEq, Eq, Structural)]
pub enum LinkError {
    /// The symbol with this id is defined more than once.
    DuplicateDefinition(u64),
}

/// `i` is the first position in `values` of a symbol called `id`.
pub open spec fn is_first(values: Seq<ValueView>, id: u64, i: int) -> bool {
    &&& 0 <= i < values.len()
    &&& values[i].id == id
    &&& forall|j: int| 0 <= j < i ==> (#[trigger] values[j]).id != id
}

/// The first position in `values` of a symbol called `id`, if there is one.
pub open spec fn position(values: Seq<ValueView>, id: u64) -> Option<int> {
    if exists|i: int| is_first(values, id, i) {
        Some(choose|i: int| is_first(values, id, i))
    } else {
        None
    }
}

/// Links one symbol into the symbols linked so far.
///
/// A symbol with a new name is added at the end. A declaration of a known
/// name changes nothing. A definition takes the place of a declaration of
/// its name. A second definition of a name is an error.
pub open spec fn link_value(acc: Seq<ValueView>, v: ValueView) -> Result<Seq<ValueView>, LinkError> {
    match position(acc, v.id) {
        None => Ok(acc.push(v)),
        Some(i) => if v.is_declaration() {
            Ok(acc)
        } else if acc[i].is_declaration() {
            Ok(acc.update(i, v))
        } else {
            Err(LinkError::DuplicateDefinition(v.id))
        },
    }
}

/// Links `values`, in order, into `acc`, up to the first error.
pub open spec fn link_values(acc: Seq<ValueView>, values: Seq<ValueView>) -> Result<
    Seq<ValueView>,
    LinkError,
>
    decreases values.len(),
{
    if values.len() == 0 {
        Ok(acc)
    } else {
        match link_values(acc, values.drop_last()) {
            Ok(linked) => link_value(linked, values.last()),
            Err(e) => Err(e),
        }
    }
}

impl ModuleView {
    /// This module with `unit` linked into it: the symbols of `unit` are
    /// linked in order, and its metadata is appended.
    pub open spec fn link(self, unit: ModuleView) -> Result<ModuleView, LinkError> {
        match link_values(self.values, unit.values) {
            Ok(values) => Ok(
                ModuleView {
                    name: self.name,
                    values,
                    annotations: self.annotations + unit.annotations,
                    used: self.used + unit.used,
                },
            ),
            Err(e) => Err(e),
        }
    }
}

/// The units linked, in order, into an empty module called
/// `merged_modules`.
pub open spec fn merge(units: Seq<ModuleView>) -> Result<ModuleView, LinkError>
    decreases units.len(),
{
    if units.len() == 0 {
        Ok(ModuleView::empty("merged_modules"@))
    } else {
        match merge(units.drop_last()) {
            Ok(acc) => acc.link(units.last()),
            Err(e) => Err(e),
        }
    }
}

/// The first position that `is_first` accepts is the position.
pub proof fn lemma_position(values: Seq<ValueView>, id: u64)
    ensures
        match position(values, id) {
            Some(i) => is_first(values, id, i),
            None => forall|j: int| 0 <= j < values.len() ==> (#[trigger] values[j]).id != id,
        },
{
    if !exists|i: int| is_first(values, id, i) {
        lemma_no_position(values, id, values.len() as int);
    }
}

proof fn lemma_no_position(values: Seq<ValueView>, id: u64, upto: int)
    requires
        !exists|i: int| is_first(values, id, i),
        0 <= upto <= values.len(),
    ensures
        forall|j: int| 0 <= j < upto ==> (#[trigger] values[j]).id != id,
    decreases upto,
{
    if upto > 0 {
        lemma_no_position(values, id, upto - 1);
        if values[upto - 1].id == id {
            assert(is_first(values, id, upto - 1));
        }
    }
}

/// An error in a prefix is the error of the whole.
proof fn lemma_link_values_error(acc: Seq<ValueView>, values: Seq<ValueView>, k: int)
    requires
        0 <= k <= values.len(),
        link_values(acc, values.take(k)) is Err,
    ensures
        link_values(acc, values) == link_values(acc, values.take(k)),
    decreases values.len(),
{
    if k == values.len() {
        assert(values.take(k) =~= values);
    } else {
        assert(values.drop_last().take(k) =~= values.take(k));
        lemma_link_values_error(acc, values.drop_last(), k);
    }
}

/// An error among the first units is the error of the whole.
proof fn lemma_merge_error(units: Seq<ModuleView>, k: int)
    requires
        0 <= k <= units.len(),
        merge(units.take(k)) is Err,
    ensures
        merge(units) == merge(units.take(k)),
    decreases units.len(),
{
    if k == units.len() {
        assert(units.take(k) =~= units);
    } else {
        assert(units.drop_last().take(k) =~= units.take(k));
        lemma_merge_error(units.drop_last(), k);
    }
}

/// No two of `values` share a name.
pub open spec fn distinct(values: Seq<ValueView>) -> bool {
    forall|i: int, j: int|
        0 <= i < j < values.len() ==> (#[trigger] values[i]).id != (#[trigger] values[j]).id
}

/// Two of `values` define the same name.
pub open spec fn defined_twice(values: Seq<ValueView>) -> bool {
    exists|a: int, b: int|
        0 <= a < b < values.len() && (#[trigger] values[a]).id == (#[trigger] values[b]).id
            && !values[a].is_declaration() && !values[b].is_declaration()
}

/// `linked` holds each name of `values` once: under it the definition, where
/// `values` holds one, and else the first declaration.
pub open spec fn resolves(values: Seq<ValueView>, linked: Seq<ValueView>) -> bool {
    &&& distinct(linked)
    &&& forall|k: int| 0 <= k < values.len() ==> has_id(linked, (#[trigger] values[k]).id)
    &&& forall|i: int| 0 <= i < linked.len() ==> values.contains(#[trigger] linked[i])
    &&& forall|i: int, k: int|
        0 <= i < linked.len() && 0 <= k < values.len() && (#[trigger] linked[i]).id == (
        #[trigger] values[k]).id && !values[k].is_declaration() ==> linked[i] == values[k]
    &&& forall|i: int|
        0 <= i < linked.len() && (#[trigger] linked[i]).is_declaration() ==> exists|k: int|
            is_first(values, linked[i].id, k) && values[k] == linked[i]
}

/// All symbols of all units, in the order in which they are linked.
pub open spec fn symbols(units: Seq<ModuleView>) -> Seq<ValueView>
    decreases units.len(),
{
    if units.len() == 0 {
        Seq::empty()
    } else {
        symbols(units.drop_last()) + units.last().values
    }
}

/// Linking into an empty module fails exactly when a name is defined twice,
/// and otherwise resolves every name.
pub proof fn lemma_link_values_resolves(values: Seq<ValueView>)
    ensures
        match link_values(Seq::empty(), values) {
            Ok(linked) => !defined_twice(values) && resolves(values, linked),
            Err(_) => defined_twice(values),
        },
    decreases values.len(),
{
    if values.len() > 0 {
        lemma_link_values_resolves(values.drop_last());
        lemma_link_values_step(values);
    }
}

/// The step of `lemma_link_values_resolves`: from all symbols but the last to
/// all of them.
proof fn lemma_link_values_step(values: Seq<ValueView>)
    requires
        values.len() > 0,
        match link_values(Seq::empty(), values.drop_last()) {
            Ok(linked) => !defined_twice(values.drop_last()) && resolves(
                values.drop_last(),
                linked,
            ),
            Err(_) => defined_twice(values.drop_last()),
        },
    ensures
        match link_values(Seq::empty(), values) {
            Ok(linked) => !defined_twice(values) && resolves(values, linked),
            Err(_) => defined_twice(values),
        },
{
    let front = values.drop_last();
    let v = values.last();
    let n = front.len() as int;
    assert(forall|k: int| 0 <= k < n ==> values[k] == front[k]);
    match link_values(Seq::empty(), front) {
        Err(_) => {
            let (a, b) = choose|a: int, b: int|
                0 <= a < b < front.len() && (#[trigger] front[a]).id == (#[trigger] front[b]).id
                    && !front[a].is_declaration() && !front[b].is_declaration();
            assert(values[a].id == values[b].id);
        },
        Ok(old) => {
            lemma_position(old, v.id);
            assert(!defined_twice(front));
            match position(old, v.id) {
                None => {
                    let linked = old.push(v);
                    assert forall|k: int| 0 <= k < n implies (#[trigger] front[k]).id != v.id by {
                        assert(has_id(old, front[k].id));
                    }
                    lemma_not_defined_twice(values);
                    assert forall|k: int| 0 <= k < values.len() implies has_id(
                        linked,
                        (#[trigger] values[k]).id,
                    ) by {
                        if k < n {
                            assert(has_id(old, front[k].id));
                            let i = choose|i: int|
                                0 <= i < old.len() && (#[trigger] old[i]).id == front[k].id;
                            assert(linked[i].id == values[k].id);
                        } else {
                            assert(linked[old.len() as int].id == values[k].id);
                        }
                    }
                    assert forall|i: int| 0 <= i < linked.len() implies values.contains(
                        #[trigger] linked[i],
                    ) by {
                        if i < old.len() {
                            assert(front.contains(old[i]));
                            let k = choose|k: int| 0 <= k < front.len() && front[k] == old[i];
                            assert(values[k] == linked[i]);
                        } else {
                            assert(values[n] == linked[i]);
                        }
                    }
                    assert forall|i: int|
                        0 <= i < linked.len() && (
                        #[trigger] linked[i]).is_declaration() implies exists|k: int|
                        is_first(values, linked[i].id, k) && values[k] == linked[i] by {
                        if i < old.len() {
                            assert(old[i].is_declaration());
                            let k = choose|k: int|
                                is_first(front, old[i].id, k) && front[k] == old[i];
                            assert(is_first(values, linked[i].id, k) && values[k] == linked[i]);
                        } else {
                            assert(is_first(values, linked[i].id, n) && values[n] == linked[i]);
                        }
                    }
                    assert(resolves(values, linked));
                },
                Some(i0) => {
                    if v.is_declaration() {
                        lemma_not_defined_twice(values);
                        assert forall|k: int| 0 <= k < values.len() implies has_id(
                            old,
                            (#[trigger] values[k]).id,
                        ) by {
                            if k < n {
                                assert(has_id(old, front[k].id));
                            } else {
                                assert(old[i0].id == values[k].id);
                            }
                        }
                        assert forall|i: int| 0 <= i < old.len() implies values.contains(
                            #[trigger] old[i],
                        ) by {
                            assert(front.contains(old[i]));
                            let k = choose|k: int| 0 <= k < front.len() && front[k] == old[i];
                            assert(values[k] == old[i]);
                        }
                        assert forall|i: int|
                            0 <= i < old.len() && (
                            #[trigger] old[i]).is_declaration() implies exists|k: int|
                            is_first(values, old[i].id, k) && values[k] == old[i] by {
                            let k = choose|k: int|
                                is_first(front, old[i].id, k) && front[k] == old[i];
                            assert(is_first(values, old[i].id, k) && values[k] == old[i]);
                        }
                        assert(resolves(values, old));
                    } else if old[i0].is_declaration() {
                        let linked = old.update(i0, v);
                        assert forall|k: int|
                            0 <= k < n && (#[trigger] front[k]).id
                                == v.id implies front[k].is_declaration() by {
                            if !front[k].is_declaration() {
                                assert(old[i0] == front[k]);
                            }
                        }
                        lemma_not_defined_twice(values);
                        assert forall|k: int| 0 <= k < values.len() implies has_id(
                            linked,
                            (#[trigger] values[k]).id,
                        ) by {
                            if k < n {
                                assert(has_id(old, front[k].id));
                                let i = choose|i: int|
                                    0 <= i < old.len() && (#[trigger] old[i]).id == front[k].id;
                                assert(linked[i].id == values[k].id);
                            } else {
                                assert(linked[i0].id == values[k].id);
                            }
                        }
                        assert forall|i: int| 0 <= i < linked.len() implies values.contains(
                            #[trigger] linked[i],
                        ) by {
                            if i != i0 {
                                assert(front.contains(old[i]));
                                let k = choose|k: int| 0 <= k < front.len() && front[k] == old[i];
                                assert(values[k] == linked[i]);
                            } else {
                                assert(values[n] == linked[i]);
                            }
                        }
                        assert forall|i: int, k: int|
                            0 <= i < linked.len() && 0 <= k < values.len() && (
                            #[trigger] linked[i]).id == (#[trigger] values[k]).id
                                && !values[k].is_declaration() implies linked[i] == values[k] by {
                            if i == i0 {
                                if k < n {
                                    assert(front[k].id == v.id);
                                }
                            } else {
                                assert(old[i].id != old[i0].id);
                                if k < n {
                                    assert(old[i].id == front[k].id);
                                }
                            }
                        }
                        assert forall|i: int|
                            0 <= i < linked.len() && (
                            #[trigger] linked[i]).is_declaration() implies exists|k: int|
                            is_first(values, linked[i].id, k) && values[k] == linked[i] by {
                            assert(i != i0);
                            assert(old[i].is_declaration());
                            let k = choose|k: int|
                                is_first(front, old[i].id, k) && front[k] == old[i];
                            assert(is_first(values, linked[i].id, k) && values[k] == linked[i]);
                        }
                        assert(distinct(linked)) by {
                            assert forall|i: int, j: int| 0 <= i < j < linked.len() implies (
                            #[trigger] linked[i]).id != (#[trigger] linked[j]).id by {
                                assert(old[i].id != old[j].id);
                            }
                        }
                        assert(resolves(values, linked));
                    } else {
                        assert(front.contains(old[i0]));
                        let k = choose|k: int| 0 <= k < front.len() && front[k] == old[i0];
                        assert(values[k].id == values[n].id);
                        assert(defined_twice(values));
                    }
                },
            }
        },
    }
}

/// If no two of the symbols before the last define one name, and none of
/// them defines the name that the last defines, no two of all do.
proof fn lemma_not_defined_twice(values: Seq<ValueView>)
    requires
        values.len() > 0,
        !defined_twice(values.drop_last()),
        values.last().is_declaration() || forall|k: int|
            0 <= k < values.len() - 1 && (#[trigger] values[k]).id == values.last().id
                ==> values[k].is_declaration(),
    ensures
        !defined_twice(values),
{
    let front = values.drop_last();
    if defined_twice(values) {
        let (a, b) = choose|a: int, b: int|
            0 <= a < b < values.len() && (#[trigger] values[a]).id == (#[trigger] values[b]).id
                && !values[a].is_declaration() && !values[b].is_declaration();
        if b < values.len() - 1 {
            assert(front[a].id == front[b].id);
            assert(defined_twice(front));
        }
    }
}

/// Linking two runs of symbols is linking the first and then the second.
pub proof fn lemma_link_values_concat(acc: Seq<ValueView>, a: Seq<ValueView>, b: Seq<ValueView>)
    ensures
        link_values(acc, a + b) == match link_values(acc, a) {
            Ok(linked) => link_values(linked, b),
            Err(e) => Err(e),
        },
    decreases b.len(),
{
    if b.len() == 0 {
        assert(a + b =~= a);
    } else {
        assert((a + b).drop_last() =~= a + b.drop_last());
        lemma_link_values_concat(acc, a, b.drop_last());
    }
}

/// Merging the units is linking all their symbols, in order, into an empty
/// module.
pub proof fn lemma_merge_links_symbols(units: Seq<ModuleView>)
    ensures
        match merge(units) {
            Ok(m) => link_values(Seq::empty(), symbols(units)) == Ok::<Seq<ValueView>, LinkError>(
                m.values,
            ),
            Err(e) => link_values(Seq::empty(), symbols(units)) == Err::<
                Seq<ValueView>,
                LinkError,
            >(e),
        },
    decreases units.len(),
{
    if units.len() > 0 {
        lemma_merge_links_symbols(units.drop_last());
        lemma_link_values_concat(
            Seq::empty(),
            symbols(units.drop_last()),
            units.last().values,
        );
    }
}

/// The merge fails exactly when two of the units' symbols define one name.
pub proof fn lemma_merge_fails_on_duplicates(units: Seq<ModuleView>)
    ensures
        merge(units) is Err <==> defined_twice(symbols(units)),
{
    lemma_merge_links_symbols(units);
    lemma_link_values_resolves(symbols(units));
}

/// The merged module holds each name of the units once: under it the
/// definition, where a unit holds one, and else the first declaration. A
/// declaration in one unit and a definition in another thus become one
/// symbol, the definition.
pub proof fn lemma_merge_resolves(units: Seq<ModuleView>, merged: ModuleView)
    requires
        merge(units) == Ok::<ModuleView, LinkError>(merged),
    ensures
        resolves(symbols(units), merged.values),
{
    lemma_merge_links_symbols(units);
    lemma_link_values_resolves(symbols(units));
}

/// A symbol is among the symbols of the units exactly when one of the units
/// holds it.
pub proof fn lemma_symbols_contains(units: Seq<ModuleView>, v: ValueView)
    ensures
        symbols(units).contains(v) <==> exists|u: int|
            0 <= u < units.len() && (#[trigger] units[u]).values.contains(v),
    decreases units.len(),
{
    if units.len() > 0 {
        let front = units.drop_last();
        lemma_symbols_contains(front, v);
        lemma_concat_contains(symbols(front), units.last().values, v);
        if exists|u: int| 0 <= u < front.len() && (#[trigger] front[u]).values.contains(v) {
            let u = choose|u: int| 0 <= u < front.len() && (#[trigger] front[u]).values.contains(v);
            assert(units[u].values.contains(v));
        }
        if exists|u: int| 0 <= u < units.len() && (#[trigger] units[u]).values.contains(v) {
            let u = choose|u: int| 0 <= u < units.len() && (#[trigger] units[u]).values.contains(v);
            if u < front.len() {
                assert(front[u].values.contains(v));
            }
        }
    }
}

/// Merging leaves no reference dangling: where each unit holds a symbol for
/// every name that its definitions refer to, so does the merged module.
pub proof fn lemma_merge_closed(units: Seq<ModuleView>, merged: ModuleView)
    requires
        merge(units) == Ok::<ModuleView, LinkError>(merged),
        forall|u: int| 0 <= u < units.len() ==> (#[trigger] units[u]).closed(),
    ensures
        merged.closed(),
{
    let all = symbols(units);
    lemma_merge_resolves(units, merged);
    assert forall|i: int, t: int|
        0 <= i < merged.values.len() && merged.values[i].body is Some && 0 <= t
            < merged.values[i].body.unwrap().len() implies has_id(
        merged.values,
        #[trigger] merged.values[i].body.unwrap()[t],
    ) by {
        let v = merged.values[i];
        let to = v.body.unwrap()[t];
        assert(all.contains(v));
        lemma_symbols_contains(units, v);
        let u = choose|u: int| 0 <= u < units.len() && (#[trigger] units[u]).values.contains(v);
        let j = choose|j: int| 0 <= j < units[u].values.len() && units[u].values[j] == v;
        assert(has_id(units[u].values, units[u].values[j].body.unwrap()[t]));
        let target = choose|target: int|
            0 <= target < units[u].values.len() && (#[trigger] units[u].values[target]).id == to;
        assert(units[u].values.contains(units[u].values[target]));
        lemma_symbols_contains(units, units[u].values[target]);
        let k = choose|k: int| 0 <= k < all.len() && all[k] == units[u].values[target];
        assert(has_id(merged.values, all[k].id));
    }
}

/// The annotations and the retained list of the merged module are those of
/// the units, one unit after the other.
pub proof fn lemma_merge_metadata(units: Seq<ModuleView>, merged: ModuleView, node: Seq<OperandView>)
    requires
        merge(units) == Ok::<ModuleView, LinkError>(merged),
    ensures
        merged.annotations.contains(node) <==> exists|u: int|
            0 <= u < units.len() && (#[trigger] units[u]).annotations.contains(node),
        merged.used.contains(node) <==> exists|u: int|
            0 <= u < units.len() && (#[trigger] units[u]).used.contains(node),
    decreases units.len(),
{
    if units.len() > 0 {
        let front = units.drop_last();
        let last = units.last();
        let acc = merge(front)->Ok_0;
        lemma_merge_metadata(front, acc, node);
        assert(merged.annotations == acc.annotations + last.annotations);
        assert(merged.used == acc.used + last.used);
        lemma_concat_contains(acc.annotations, last.annotations, node);
        lemma_concat_contains(acc.used, last.used, node);
        if exists|u: int| 0 <= u < front.len() && (#[trigger] front[u]).annotations.contains(node) {
            let u = choose|u: int|
                0 <= u < front.len() && (#[trigger] front[u]).annotations.contains(node);
            assert(units[u].annotations.contains(node));
        }
        if exists|u: int| 0 <= u < front.len() && (#[trigger] front[u]).used.contains(node) {
            let u = choose|u: int| 0 <= u < front.len() && (#[trigger] front[u]).used.contains(node);
            assert(units[u].used.contains(node));
        }
        if exists|u: int| 0 <= u < units.len() && (#[trigger] units[u]).annotations.contains(node) {
            let u = choose|u: int|
                0 <= u < units.len() && (#[trigger] units[u]).annotations.contains(node);
            if u < front.len() {
                assert(front[u].annotations.contains(node));
            }
        }
        if exists|u: int| 0 <= u < units.len() && (#[trigger] units[u]).used.contains(node) {
            let u = choose|u: int| 0 <= u < units.len() && (#[trigger] units[u]).used.contains(node);
            if u < front.len() {
                assert(front[u].used.contains(node));
            }
        }
    }
}

proof fn lemma_concat_contains<A>(a: Seq<A>, b: Seq<A>, x: A)
    ensures
        (a + b).contains(x) <==> a.contains(x) || b.contains(x),
{
    if a.contains(x) {
        let i = choose|i: int| 0 <= i < a.len() && a[i] == x;
        assert((a + b)[i] == x);
    }
    if b.contains(x) {
        let i = choose|i: int| 0 <= i < b.len() && b[i] == x;
        assert((a + b)[a.len() + i] == x);
    }
    if (a + b).contains(x) {
        let i = choose|i: int| 0 <= i < (a + b).len() && (a + b)[i] == x;
        if i < a.len() {
            assert(a[i] == x);
        } else {
            assert(b[i - a.len()] == x);
        }
    }
}

/// The entry points of the merged module are those of the units taken
/// together, and so are its retained symbols.
pub proof fn lemma_merge_entry_points(units: Seq<ModuleView>, merged: ModuleView, id: u64)
    requires
        merge(units) == Ok::<ModuleView, LinkError>(merged),
    ensures
        merged.entry_points().contains(id) <==> exists|u: int|
            0 <= u < units.len() && (#[trigger] units[u]).entry_points().contains(id),
        merged.retained().contains(id) <==> exists|u: int|
            0 <= u < units.len() && (#[trigger] units[u]).retained().contains(id),
{
    if merged.entry_points().contains(id) {
        let k = choose|k: int|
            0 <= k < merged.annotations.len() && kernel_of(#[trigger] merged.annotations[k])
                == Some(id);
        let node = merged.annotations[k];
        lemma_merge_metadata(units, merged, node);
        let u = choose|u: int|
            0 <= u < units.len() && (#[trigger] units[u]).annotations.contains(node);
        let j = choose|j: int| 0 <= j < units[u].annotations.len() && units[u].annotations[j] == node;
        assert(kernel_of(units[u].annotations[j]) == Some(id));
        assert(units[u].entry_points().contains(id));
    }
    if exists|u: int| 0 <= u < units.len() && (#[trigger] units[u]).entry_points().contains(id) {
        let u = choose|u: int|
            0 <= u < units.len() && (#[trigger] units[u]).entry_points().contains(id);
        let j = choose|j: int|
            0 <= j < units[u].annotations.len() && kernel_of(#[trigger] units[u].annotations[j])
                == Some(id);
        let node = units[u].annotations[j];
        lemma_merge_metadata(units, merged, node);
        let k = choose|k: int| 0 <= k < merged.annotations.len() && merged.annotations[k] == node;
        assert(kernel_of(merged.annotations[k]) == Some(id));
    }
    if merged.retained().contains(id) {
        let k = choose|k: int|
            0 <= k < merged.used.len() && retained_of(#[trigger] merged.used[k]) == Some(id);
        let node = merged.used[k];
        lemma_merge_metadata(units, merged, node);
        let u = choose|u: int| 0 <= u < units.len() && (#[trigger] units[u]).used.contains(node);
        let j = choose|j: int| 0 <= j < units[u].used.len() && units[u].used[j] == node;
        assert(retained_of(units[u].used[j]) == Some(id));
        assert(units[u].retained().contains(id));
    }
    if exists|u: int| 0 <= u < units.len() && (#[trigger] units[u]).retained().contains(id) {
        let u = choose|u: int| 0 <= u < units.len() && (#[trigger] units[u]).retained().contains(id);
        let j = choose|j: int|
            0 <= j < units[u].used.len() && retained_of(#[trigger] units[u].used[j]) == Some(id);
        let node = units[u].used[j];
        lemma_merge_metadata(units, merged, node);
        let k = choose|k: int| 0 <= k < merged.used.len() && merged.used[k] == node;
        assert(retained_of(merged.used[k]) == Some(id));
    }
}

/// The first position in `values` of a symbol called `id`.
fn find(values: &Vec<Value>, id: u64) -> (r: Option<usize>)
    ensures
        match r {
            Some(i) => position(values@.map_values(|v: Value| v@), id) == Some(i as int),
            None => position(values@.map_values(|v: Value| v@), id) is None,
        },
{
    let ghost views = values@.map_values(|v: Value| v@);
    let mut i: usize = 0;
    while i < values.len()
        invariant
            i <= values.len(),
            views == values@.map_values(|v: Value| v@),
            forall|j: int| 0 <= j < i ==> (#[trigger] views[j]).id != id,
        decreases values.len() - i,
    {
        assert(views[i as int] == values[i as int]@);
        if values[i].id == id {
            proof {
                assert(is_first(views, id, i as int));
                lemma_position(views, id);
            }
            return Some(i);
        }
        i += 1;
    }
    proof {
        lemma_position(views, id);
    }
    None
}

impl Module {
    /// Links `unit` into this module and hands the module back, or reports
    /// the first symbol that both define.
    pub fn link(self, unit: Module) -> (r: Result<Module, LinkError>)
        ensures
            match r {
                Ok(m) => self@.link(unit@) == Ok::<ModuleView, LinkError>(m@),
                Err(e) => self@.link(unit@) == Err::<ModuleView, LinkError>(e),
            },
    {
        let ghost acc = self@;
        let ghost incoming = unit@;
        let Module { name, mut values, mut annotations, mut used } = self;
        let Module {
            name: _,
            values: unit_values,
            annotations: mut unit_annotations,
            used: mut unit_used,
        } = unit;
        assert(incoming.values.take(0) =~= Seq::<ValueView>::empty());
        assert(values@.map_values(|v: Value| v@) =~= acc.values);
        for v in it: unit_values
            invariant
                acc == self@,
                incoming == unit@,
                it.seq().map_values(|v: Value| v@) == incoming.values,
                link_values(acc.values, incoming.values.take(it.index() as int)) == Ok::<
                    Seq<ValueView>,
                    LinkError,
                >(values@.map_values(|v: Value| v@)),
        {
            let ghost linked = values@.map_values(|v: Value| v@);
            let ghost k = it.index() as int;
            proof {
                assert(incoming.values.take(k + 1).drop_last() =~= incoming.values.take(k));
                assert(incoming.values.take(k + 1).last() == v@);
                assert(link_values(acc.values, incoming.values.take(k + 1)) == link_value(
                    linked,
                    v@,
                ));
            }
            match find(&values, v.id) {
                None => {
                    values.push(v);
                    assert(values@.map_values(|v: Value| v@) =~= linked.push(v@));
                },
                Some(i) => {
                    assert(linked[i as int] == values[i as int]@);
                    if v.is_declaration() {
                    } else if values[i].is_declaration() {
                        values[i] = v;
                        assert(values@.map_values(|v: Value| v@) =~= linked.update(i as int, v@));
                    } else {
                        proof {
                            lemma_link_values_error(acc.values, incoming.values, k + 1);
                        }
                        return Err(LinkError::DuplicateDefinition(v.id));
                    }
                },
            }
        }
        assert(incoming.values.take(incoming.values.len() as int) =~= incoming.values);
        annotations.append(&mut unit_annotations);
        used.append(&mut unit_used);
        let m = Module { name, values, annotations, used };
        proof {
            assert(m@.annotations =~= acc.annotations + incoming.annotations);
            assert(m@.used =~= acc.used + incoming.used);
        }
        Ok(m)
    }
}

/// Merges the units into one module called `merged_modules`: each is linked
/// in turn into the accumulator. Fails with the first symbol that is defined
/// twice.
pub fn merge_llvm_modules(modules: Vec<Module>) -> (r: Result<Module, LinkError>)
    ensures
        match r {
            Ok(m) => merge(modules@.map_values(|u: Module| u@)) == Ok::<ModuleView, LinkError>(m@),
            Err(e) => merge(modules@.map_values(|u: Module| u@)) == Err::<ModuleView, LinkError>(
                e,
            ),
        },
{
    let ghost units = modules@.map_values(|u: Module| u@);
    let mut module = Module::new("merged_modules");
    assert(units.take(0) =~= Seq::<ModuleView>::empty());
    for unit in it: modules
        invariant
            units == modules@.map_values(|u: Module| u@),
            it.seq().map_values(|u: Module| u@) == units,
            merge(units.take(it.index() as int)) == Ok::<ModuleView, LinkError>(module@),
    {
        let ghost k = it.index() as int;
        proof {
            assert(units.take(k + 1).drop_last() =~= units.take(k));
            assert(units.take(k + 1).last() == unit@);
        }
        match module.link(unit) {
            Ok(linked) => {
                module = linked;
            },
            Err(e) => {
                proof {
                    lemma_merge_error(units, k + 1);
                }
                return Err(e);
            },
        }
    }
    assert(units.take(units.len() as int) =~= units);
    Ok(module)
}

} // verus!
