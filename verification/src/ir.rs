//! The in-memory model of an IR module: its functions and globals, and the two
//! named metadata nodes that the pipeline reads.

use vstd::prelude::*;

verus! {

/// The name of the metadata node whose operands annotate the entry points.
pub const ANNOTATIONS: &'static str = "nvvm.annotations";

/// The name of the metadata node whose operands list the retained symbols.
pub const RETAINED: &'static str = "cg_nvvm_used";

/// Whether a symbol can be seen from outside its module.
#[derive(Clone, Copy, Debug, PartialEq, Eq, Structural)]
pub enum Linkage {
    External,
    Internal,
}

/// How an externally linked symbol is exported.
#[derive(Clone, Copy, Debug, PartialEq, Eq, Structural)]
pub enum Visibility {
    Default,
    Hidden,
}

/// The two kinds of symbol that a module holds.
#[derive(Clone, Copy, Debug, PartialEq, Eq, Structural)]
pub enum ValueKind {
    Function,
    Global,
}

/// A function or a global variable.
///
/// `id` stands for the symbol's name: what two units call by one name, and
/// mean to be one symbol, has one `id` in both, and no two symbols share one.
/// `body` lists the symbols that the function body or the initializer refers
/// to; a declaration has none.
#[derive(Clone, Debug, PartialEq, Eq)]
pub struct Value {
    pub id: u64,
    pub kind: ValueKind,
    pub linkage: Linkage,
    pub visibility: Visibility,
    pub body: Option<Vec<u64>>,
}

/// The mathematical content of a [`Value`].
pub struct ValueView {
    pub id: u64,
    pub kind: ValueKind,
    pub linkage: Linkage,
    pub visibility: Visibility,
    pub body: Option<Seq<u64>>,
}

impl View for Value {
    type V = ValueView;

    open spec fn view(&self) -> ValueView {
        ValueView {
            id: self.id,
            kind: self.kind,
            linkage: self.linkage,
            visibility: self.visibility,
            body: match self.body {
                Some(refs) => Some(refs@),
                None => None,
            },
        }
    }
}

impl ValueView {
    /// A declaration has no body or initializer.
    pub open spec fn is_declaration(self) -> bool {
        self.body is None
    }

    /// The same symbol with another linkage and visibility.
    pub open spec fn with_linkage(self, linkage: Linkage, visibility: Visibility) -> ValueView {
        ValueView { linkage, visibility, ..self }
    }
}

impl Value {
    /// A declaration of `id`: external, default visibility, no body.
    pub fn declaration(id: u64, kind: ValueKind) -> (v: Value)
        ensures
            v@ == (ValueView {
                id,
                kind,
                linkage: Linkage::External,
                visibility: Visibility::Default,
                body: None,
            }),
    {
        Value { id, kind, linkage: Linkage::External, visibility: Visibility::Default, body: None }
    }

    /// A definition of `id` whose body refers to `refs`.
    pub fn definition(id: u64, kind: ValueKind, linkage: Linkage, refs: Vec<u64>) -> (v: Value)
        ensures
            v@ == (ValueView {
                id,
                kind,
                linkage,
                visibility: Visibility::Default,
                body: Some(refs@),
            }),
    {
        Value { id, kind, linkage, visibility: Visibility::Default, body: Some(refs) }
    }

    /// Whether this is a declaration: a symbol that is defined elsewhere.
    pub fn is_declaration(&self) -> (b: bool)
        ensures
            b == self@.is_declaration(),
    {
        self.body.is_none()
    }

    /// Sets linkage and visibility, leaving the rest as it is.
    pub fn set_linkage(&mut self, linkage: Linkage, visibility: Visibility)
        ensures
            final(self)@ == old(self)@.with_linkage(linkage, visibility),
    {
        self.linkage = linkage;
        self.visibility = visibility;
    }
}

/// One operand of a metadata node.
#[derive(Clone, Debug, PartialEq, Eq)]
pub enum Operand {
    /// A reference to the function or global with this id.
    Value(u64),
    /// A metadata string.
    Text(String),
    /// Anything else: a constant, a nested node, a null operand.
    Other,
}

/// The mathematical content of an [`Operand`].
pub enum OperandView {
    Value(u64),
    Text(Seq<char>),
    Other,
}

impl View for Operand {
    type V = OperandView;

    open spec fn view(&self) -> OperandView {
        match self {
            Operand::Value(id) => OperandView::Value(*id),
            Operand::Text(s) => OperandView::Text(s@),
            Operand::Other => OperandView::Other,
        }
    }
}

/// One operand of a named metadata node: an ordered list of operands.
#[derive(Clone, Debug, PartialEq, Eq)]
pub struct MetadataNode {
    pub operands: Vec<Operand>,
}

impl View for MetadataNode {
    type V = Seq<OperandView>;

    open spec fn view(&self) -> Seq<OperandView> {
        self.operands@.map_values(|o: Operand| o@)
    }
}

/// An IR module.
///
/// `values` holds the functions and globals in module order. `annotations`
/// holds the operands of the named node [`ANNOTATIONS`], `used` those of the
/// named node [`RETAINED`].
#[derive(Clone, Debug, PartialEq, Eq)]
pub struct Module {
    pub name: String,
    pub values: Vec<Value>,
    pub annotations: Vec<MetadataNode>,
    pub used: Vec<MetadataNode>,
}

/// The mathematical content of a [`Module`].
pub struct ModuleView {
    pub name: Seq<char>,
    pub values: Seq<ValueView>,
    pub annotations: Seq<Seq<OperandView>>,
    pub used: Seq<Seq<OperandView>>,
}

impl View for Module {
    type V = ModuleView;

    open spec fn view(&self) -> ModuleView {
        ModuleView {
            name: self.name@,
            values: self.values@.map_values(|v: Value| v@),
            annotations: self.annotations@.map_values(|n: MetadataNode| n@),
            used: self.used@.map_values(|n: MetadataNode| n@),
        }
    }
}

impl MetadataNode {
    /// The annotation that marks `id` as a kernel.
    pub fn kernel(id: u64) -> (node: MetadataNode)
        ensures
            node@ == seq![OperandView::Value(id), OperandView::Text("kernel"@), OperandView::Other],
    {
        let mut operands: Vec<Operand> = Vec::new();
        operands.push(Operand::Value(id));
        operands.push(Operand::Text("kernel".to_owned()));
        operands.push(Operand::Other);
        let node = MetadataNode { operands };
        assert(node@ =~= seq![
            OperandView::Value(id),
            OperandView::Text("kernel"@),
            OperandView::Other,
        ]);
        node
    }

    /// The entry of the retained list that names `id`.
    pub fn retained(id: u64) -> (node: MetadataNode)
        ensures
            node@ == seq![OperandView::Value(id)],
    {
        let mut operands: Vec<Operand> = Vec::new();
        operands.push(Operand::Value(id));
        let node = MetadataNode { operands };
        assert(node@ =~= seq![OperandView::Value(id)]);
        node
    }
}

impl ModuleView {
    /// The empty module called `name`.
    pub open spec fn empty(name: Seq<char>) -> ModuleView {
        ModuleView { name, values: Seq::empty(), annotations: Seq::empty(), used: Seq::empty() }
    }
}

impl Module {
    /// An empty module called `name`.
    pub fn new(name: &str) -> (m: Module)
        ensures
            m@ == ModuleView::empty(name@),
    {
        let m = Module {
            name: name.to_owned(),
            values: Vec::new(),
            annotations: Vec::new(),
            used: Vec::new(),
        };
        assert(m@.values =~= Seq::empty());
        assert(m@.annotations =~= Seq::empty());
        assert(m@.used =~= Seq::empty());
        m
    }

    /// Puts `value` behind the symbols of the module.
    pub fn push(&mut self, value: Value)
        ensures
            final(self)@ == (ModuleView {
                values: old(self)@.values.push(value@),
                ..old(self)@
            }),
    {
        self.values.push(value);
        assert(self@.values =~= old(self)@.values.push(value@));
    }

    /// Puts `node` behind the annotations of the module.
    pub fn annotate(&mut self, node: MetadataNode)
        ensures
            final(self)@ == (ModuleView {
                annotations: old(self)@.annotations.push(node@),
                ..old(self)@
            }),
    {
        self.annotations.push(node);
        assert(self@.annotations =~= old(self)@.annotations.push(node@));
    }

    /// Puts `node` behind the retained list of the module.
    pub fn retain(&mut self, node: MetadataNode)
        ensures
            final(self)@ == (ModuleView { used: old(self)@.used.push(node@), ..old(self)@ }),
    {
        self.used.push(node);
        assert(self@.used =~= old(self)@.used.push(node@));
    }
}

/// One of `values` is called `id`.
pub open spec fn has_id(values: Seq<ValueView>, id: u64) -> bool {
    exists|i: int| 0 <= i < values.len() && (#[trigger] values[i]).id == id
}

impl ModuleView {
    /// No reference dangles: the module holds a symbol for every name that
    /// one of its definitions refers to.
    pub open spec fn closed(self) -> bool {
        forall|i: int, t: int|
            0 <= i < self.values.len() && self.values[i].body is Some && 0 <= t
                < self.values[i].body.unwrap().len() ==> has_id(
                self.values,
                #[trigger] self.values[i].body.unwrap()[t],
            )
    }

    /// The positions in `values` of the symbols of `kind`, in module order.
    pub open spec fn handles(self, kind: ValueKind) -> Seq<usize> {
        Seq::new(self.values.len(), |i: int| i as usize).filter(
            |h: usize| self.values[h as int].kind == kind,
        )
    }

    /// Every handle is a position of a symbol of `kind`, and every such
    /// position is a handle.
    pub proof fn lemma_handles(self, kind: ValueKind)
        requires
            self.values.len() <= usize::MAX,
        ensures
            forall|k: int|
                0 <= k < self.handles(kind).len() ==> {
                    let h = #[trigger] self.handles(kind)[k];
                    h < self.values.len() && self.values[h as int].kind == kind
                },
            forall|i: int|
                0 <= i < self.values.len() && (#[trigger] self.values[i]).kind == kind
                    ==> self.handles(kind).contains(i as usize),
    {
        let all = Seq::new(self.values.len(), |i: int| i as usize);
        let pred = |h: usize| self.values[h as int].kind == kind;
        assert forall|k: int| 0 <= k < self.handles(kind).len() implies {
            let h = #[trigger] self.handles(kind)[k];
            h < self.values.len() && self.values[h as int].kind == kind
        } by {
            let h = self.handles(kind)[k];
            all.lemma_filter_pred(pred, k);
            assert(all.filter(pred).contains(h));
            all.lemma_filter_contains_rev(pred, h);
            let j = choose|j: int| 0 <= j < all.len() && all[j] == h;
            assert(h == j);
        }
        assert forall|i: int|
            0 <= i < self.values.len() && (#[trigger] self.values[i]).kind
                == kind implies self.handles(kind).contains(i as usize) by {
            assert(all[i] == i as usize);
            all.lemma_filter_contains(pred, i);
        }
    }
}

/// The handles of the symbols of one kind, in module order.
fn collect_handles(module: &Module, kind: ValueKind) -> (out: Vec<usize>)
    ensures
        out@ == module@.handles(kind),
{
    let n: usize = module.values.len();
    let ghost all = Seq::new(module@.values.len(), |i: int| i as usize);
    let ghost pred = |h: usize| module@.values[h as int].kind == kind;
    let mut out: Vec<usize> = Vec::new();
    let mut i: usize = 0;
    proof {
        reveal(Seq::filter);
        assert(all.take(0) =~= Seq::<usize>::empty());
    }
    while i < n
        invariant
            i <= n,
            n == module.values.len(),
            all == Seq::new(module@.values.len(), |i: int| i as usize),
            pred == |h: usize| module@.values[h as int].kind == kind,
            out@ == all.take(i as int).filter(pred),
        decreases n - i,
    {
        proof {
            reveal(Seq::filter);
            assert(all.take(i + 1).drop_last() =~= all.take(i as int));
            assert(all.take(i + 1).last() == i);
            assert(module@.values[i as int].kind == module.values[i as int].kind);
        }
        if module.values[i].kind == kind {
            out.push(i);
        }
        i += 1;
    }
    proof {
        assert(all.take(n as int) =~= all);
    }
    out
}

/// Walks the functions of a module in module order.
///
/// The walk is fixed when the iterator is made: it hands out positions in
/// `values`, so the module may be changed while the walk goes on.
pub struct FunctionIter {
    handles: Vec<usize>,
    pos: usize,
}

/// Walks the globals of a module in module order.
pub struct GlobalIter {
    handles: Vec<usize>,
    pos: usize,
}

impl View for FunctionIter {
    type V = Seq<usize>;

    /// The handles still to come.
    closed spec fn view(&self) -> Seq<usize> {
        if self.pos <= self.handles.len() {
            self.handles@.skip(self.pos as int)
        } else {
            Seq::empty()
        }
    }
}

impl View for GlobalIter {
    type V = Seq<usize>;

    /// The handles still to come.
    closed spec fn view(&self) -> Seq<usize> {
        if self.pos <= self.handles.len() {
            self.handles@.skip(self.pos as int)
        } else {
            Seq::empty()
        }
    }
}

impl FunctionIter {
    /// A walk over the functions that `module` holds now.
    pub fn new(module: &Module) -> (it: FunctionIter)
        ensures
            it@ == module@.handles(ValueKind::Function),
    {
        let handles = collect_handles(module, ValueKind::Function);
        assert(handles@.skip(0) =~= handles@);
        FunctionIter { handles, pos: 0 }
    }

    /// The next function, or `None` when the walk is over.
    pub fn next(&mut self) -> (r: Option<usize>)
        ensures
            old(self)@.len() == 0 ==> r is None && final(self)@ == old(self)@,
            old(self)@.len() > 0 ==> r == Some(old(self)@[0]) && final(self)@ == old(self)@.skip(1),
    {
        if self.pos < self.handles.len() {
            let h: usize = self.handles[self.pos];
            self.pos += 1;
            assert(self.handles@.skip(self.pos as int) =~= old(self)@.skip(1));
            Some(h)
        } else {
            None
        }
    }
}

impl GlobalIter {
    /// A walk over the globals that `module` holds now.
    pub fn new(module: &Module) -> (it: GlobalIter)
        ensures
            it@ == module@.handles(ValueKind::Global),
    {
        let handles = collect_handles(module, ValueKind::Global);
        assert(handles@.skip(0) =~= handles@);
        GlobalIter { handles, pos: 0 }
    }

    /// The next global, or `None` when the walk is over.
    pub fn next(&mut self) -> (r: Option<usize>)
        ensures
            old(self)@.len() == 0 ==> r is None && final(self)@ == old(self)@,
            old(self)@.len() > 0 ==> r == Some(old(self)@[0]) && final(self)@ == old(self)@.skip(1),
    {
        if self.pos < self.handles.len() {
            let h: usize = self.handles[self.pos];
            self.pos += 1;
            assert(self.handles@.skip(self.pos as int) =~= old(self)@.skip(1));
            Some(h)
        } else {
            None
        }
    }
}

} // verus!
