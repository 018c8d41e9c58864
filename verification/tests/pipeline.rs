use nvvm_codegen::{
    dce_pass, internalize_pass, link_units, live_values, merge_llvm_modules, FunctionIter,
    GlobalIter, LinkError, Linkage, MetadataNode, Module, Operand, Value, ValueKind, Visibility,
};

const KERNEL_MAIN: u64 = 1;
const HELPER: u64 = 2;
const UNUSED: u64 = 3;
const TABLE: u64 = 4;
const SINF: u64 = 5;

fn kernel_annotation(id: u64) -> MetadataNode {
    MetadataNode {
        operands: vec![
            Operand::Value(id),
            Operand::Text("kernel".to_string()),
            Operand::Other,
        ],
    }
}

fn retained_entry(id: u64) -> MetadataNode {
    MetadataNode { operands: vec![Operand::Value(id)] }
}

fn function(id: u64, linkage: Linkage, refs: Vec<u64>) -> Value {
    Value::definition(id, ValueKind::Function, linkage, refs)
}

fn global(id: u64, linkage: Linkage, refs: Vec<u64>) -> Value {
    Value::definition(id, ValueKind::Global, linkage, refs)
}

fn find(module: &Module, id: u64) -> Option<&Value> {
    module.values.iter().find(|v| v.id == id)
}

fn ids(module: &Module) -> Vec<u64> {
    module.values.iter().map(|v| v.id).collect()
}

fn unit_a() -> Module {
    let mut a = Module::new("a");
    a.values.push(function(KERNEL_MAIN, Linkage::External, vec![HELPER]));
    a.values.push(Value::declaration(HELPER, ValueKind::Function));
    a.annotations.push(kernel_annotation(KERNEL_MAIN));
    a
}

fn unit_b() -> Module {
    let mut b = Module::new("b");
    b.values.push(function(HELPER, Linkage::Internal, vec![]));
    b.values.push(function(UNUSED, Linkage::Internal, vec![]));
    b
}

#[test]
fn kernel_keeps_helper_and_drops_unused() {
    let mut merged = merge_llvm_modules(vec![unit_a(), unit_b()]).unwrap();
    internalize_pass(&mut merged);
    dce_pass(&mut merged);

    let kernel = find(&merged, KERNEL_MAIN).unwrap();
    assert_eq!(kernel.linkage, Linkage::External);
    let helper = find(&merged, HELPER).unwrap();
    assert_eq!(helper.linkage, Linkage::Internal);
    assert_eq!(helper.visibility, Visibility::Default);
    assert!(!helper.is_declaration());
    assert!(find(&merged, UNUSED).is_none());
    assert_eq!(ids(&merged), vec![KERNEL_MAIN, HELPER]);
}

#[test]
fn helper_defined_external_ends_internal() {
    let mut b = Module::new("b");
    b.values.push(function(HELPER, Linkage::External, vec![]));
    b.values.push(function(UNUSED, Linkage::External, vec![]));
    let linked = link_units(vec![unit_a(), b]).unwrap();
    assert_eq!(ids(&linked), vec![KERNEL_MAIN, HELPER]);
    assert_eq!(find(&linked, KERNEL_MAIN).unwrap().linkage, Linkage::External);
    assert_eq!(find(&linked, HELPER).unwrap().linkage, Linkage::Internal);
}

#[test]
fn link_units_is_merge_then_internalize_then_sweep() {
    let mut by_hand = merge_llvm_modules(vec![unit_a(), unit_b()]).unwrap();
    internalize_pass(&mut by_hand);
    dce_pass(&mut by_hand);
    let at_once = link_units(vec![unit_a(), unit_b()]).unwrap();
    assert_eq!(at_once, by_hand);
}

#[test]
fn module_without_roots_is_internalized_and_emptied() {
    let mut m = Module::new("m");
    m.values.push(function(HELPER, Linkage::External, vec![TABLE]));
    m.values.push(global(TABLE, Linkage::External, vec![]));
    m.values.push(function(UNUSED, Linkage::External, vec![]));
    internalize_pass(&mut m);
    assert_eq!(m.values.len(), 3);
    for v in m.values.iter() {
        assert_eq!(v.linkage, Linkage::Internal);
        assert_eq!(v.visibility, Visibility::Default);
    }
    dce_pass(&mut m);
    assert!(m.values.is_empty());
}

#[test]
fn merge_of_nothing_is_the_empty_accumulator() {
    let merged = merge_llvm_modules(vec![]).unwrap();
    assert_eq!(merged, Module::new("merged_modules"));
}

#[test]
fn merge_keeps_the_accumulator_name() {
    let merged = merge_llvm_modules(vec![unit_a(), unit_b()]).unwrap();
    assert_eq!(merged.name, "merged_modules");
}

#[test]
fn merge_puts_the_definition_in_place_of_the_declaration() {
    let merged = merge_llvm_modules(vec![unit_a(), unit_b()]).unwrap();
    assert_eq!(ids(&merged), vec![KERNEL_MAIN, HELPER, UNUSED]);
    assert_eq!(merged.values[1], function(HELPER, Linkage::Internal, vec![]));
}

#[test]
fn merge_keeps_a_definition_over_a_later_declaration() {
    let merged = merge_llvm_modules(vec![unit_b(), unit_a()]).unwrap();
    assert_eq!(ids(&merged), vec![HELPER, UNUSED, KERNEL_MAIN]);
    assert!(!merged.values[0].is_declaration());
}

#[test]
fn merge_keeps_the_first_of_two_declarations() {
    let mut a = Module::new("a");
    a.values.push(Value::declaration(SINF, ValueKind::Function));
    let mut b = Module::new("b");
    let mut hidden = Value::declaration(SINF, ValueKind::Function);
    hidden.set_linkage(Linkage::External, Visibility::Hidden);
    b.values.push(hidden);
    let merged = merge_llvm_modules(vec![a, b]).unwrap();
    assert_eq!(merged.values, vec![Value::declaration(SINF, ValueKind::Function)]);
}

#[test]
fn merge_refuses_a_second_definition() {
    let mut c = Module::new("c");
    c.values.push(function(HELPER, Linkage::External, vec![]));
    let r = merge_llvm_modules(vec![unit_a(), unit_b(), c]);
    assert_eq!(r, Err(LinkError::DuplicateDefinition(HELPER)));
}

#[test]
fn merge_refuses_a_second_definition_inside_one_unit() {
    let mut a = Module::new("a");
    a.values.push(function(HELPER, Linkage::Internal, vec![]));
    a.values.push(global(HELPER, Linkage::Internal, vec![]));
    assert_eq!(merge_llvm_modules(vec![a]), Err(LinkError::DuplicateDefinition(HELPER)));
}

#[test]
fn merge_reports_the_first_conflict() {
    let mut c = Module::new("c");
    c.values.push(function(UNUSED, Linkage::External, vec![]));
    c.values.push(function(HELPER, Linkage::External, vec![]));
    let r = merge_llvm_modules(vec![unit_b(), c]);
    assert_eq!(r, Err(LinkError::DuplicateDefinition(UNUSED)));
}

#[test]
fn merge_appends_metadata_in_unit_order() {
    let mut a = unit_a();
    a.used.push(retained_entry(HELPER));
    let mut b = unit_b();
    b.annotations.push(kernel_annotation(UNUSED));
    b.used.push(retained_entry(UNUSED));
    let merged = merge_llvm_modules(vec![a, b]).unwrap();
    assert_eq!(
        merged.annotations,
        vec![kernel_annotation(KERNEL_MAIN), kernel_annotation(UNUSED)]
    );
    assert_eq!(merged.used, vec![retained_entry(HELPER), retained_entry(UNUSED)]);
}

#[test]
fn entry_points_of_the_merge_are_those_of_the_units() {
    let mut b = unit_b();
    b.annotations.push(kernel_annotation(UNUSED));
    let mut merged = merge_llvm_modules(vec![unit_a(), b]).unwrap();
    internalize_pass(&mut merged);
    assert_eq!(find(&merged, KERNEL_MAIN).unwrap().linkage, Linkage::External);
    // An entry point keeps its linkage, whatever it was.
    assert_eq!(find(&merged, UNUSED).unwrap().linkage, Linkage::Internal);
    assert_eq!(find(&merged, HELPER).unwrap().linkage, Linkage::Internal);
    assert_eq!(
        nvvm_codegen::internalize::entry_points(&merged),
        vec![KERNEL_MAIN, UNUSED]
    );
}

#[test]
fn link_into_a_module_appends_new_symbols() {
    let linked = unit_a().link(unit_b()).unwrap();
    assert_eq!(linked.name, "a");
    assert_eq!(ids(&linked), vec![KERNEL_MAIN, HELPER, UNUSED]);
    assert_eq!(linked.annotations, vec![kernel_annotation(KERNEL_MAIN)]);
}

#[test]
fn internalize_leaves_declarations_alone() {
    let mut m = Module::new("m");
    let mut hidden = Value::declaration(SINF, ValueKind::Function);
    hidden.set_linkage(Linkage::Internal, Visibility::Hidden);
    m.values.push(hidden);
    m.values.push(Value::declaration(TABLE, ValueKind::Global));
    m.annotations.push(kernel_annotation(SINF));
    m.used.push(retained_entry(SINF));
    m.used.push(retained_entry(TABLE));
    let before = m.values.clone();
    internalize_pass(&mut m);
    assert_eq!(m.values, before);
}

#[test]
fn internalize_makes_retained_functions_external() {
    let mut m = Module::new("m");
    m.values.push(function(HELPER, Linkage::Internal, vec![]));
    let mut hidden = function(KERNEL_MAIN, Linkage::Internal, vec![]);
    hidden.set_linkage(Linkage::Internal, Visibility::Hidden);
    m.values.push(hidden);
    m.annotations.push(kernel_annotation(KERNEL_MAIN));
    m.used.push(retained_entry(HELPER));
    m.used.push(retained_entry(KERNEL_MAIN));
    internalize_pass(&mut m);
    for v in m.values.iter() {
        assert_eq!(v.linkage, Linkage::External);
        assert_eq!(v.visibility, Visibility::Default);
    }
}

#[test]
fn internalize_makes_every_defined_global_internal() {
    let mut m = Module::new("m");
    m.values.push(global(TABLE, Linkage::External, vec![]));
    m.annotations.push(kernel_annotation(TABLE));
    m.used.push(retained_entry(TABLE));
    internalize_pass(&mut m);
    assert_eq!(m.values[0].linkage, Linkage::Internal);
    assert_eq!(m.values[0].visibility, Visibility::Default);
}

#[test]
fn internalize_keeps_an_entry_point_as_it_is() {
    let mut m = Module::new("m");
    let mut kernel = function(KERNEL_MAIN, Linkage::External, vec![]);
    kernel.set_linkage(Linkage::External, Visibility::Hidden);
    m.values.push(kernel);
    m.annotations.push(kernel_annotation(KERNEL_MAIN));
    internalize_pass(&mut m);
    assert_eq!(m.values[0].linkage, Linkage::External);
    assert_eq!(m.values[0].visibility, Visibility::Hidden);
}

#[test]
fn internalize_reads_only_well_formed_annotations() {
    let mut m = Module::new("m");
    m.values.push(function(1, Linkage::External, vec![]));
    m.values.push(function(2, Linkage::External, vec![]));
    m.values.push(function(3, Linkage::External, vec![]));
    m.values.push(function(4, Linkage::External, vec![]));
    // The marker is missing.
    m.annotations.push(MetadataNode { operands: vec![Operand::Value(1)] });
    // The marker is another string.
    m.annotations.push(MetadataNode {
        operands: vec![Operand::Value(2), Operand::Text("maxntidx".to_string())],
    });
    // The marker stands in the wrong place.
    m.annotations.push(MetadataNode {
        operands: vec![Operand::Text("kernel".to_string()), Operand::Value(3)],
    });
    m.annotations.push(MetadataNode { operands: vec![] });
    m.annotations.push(MetadataNode {
        operands: vec![Operand::Value(4), Operand::Text("kernel".to_string())],
    });
    // A retained entry that names no symbol, and an empty one.
    m.used.push(MetadataNode { operands: vec![Operand::Other, Operand::Value(1)] });
    m.used.push(MetadataNode { operands: vec![] });
    internalize_pass(&mut m);
    let linkages: Vec<Linkage> = m.values.iter().map(|v| v.linkage).collect();
    assert_eq!(
        linkages,
        vec![Linkage::Internal, Linkage::Internal, Linkage::Internal, Linkage::External]
    );
}

#[test]
fn internalize_twice_is_internalize_once() {
    let mut once = merge_llvm_modules(vec![unit_a(), unit_b()]).unwrap();
    once.used.push(retained_entry(UNUSED));
    let mut twice = once.clone();
    internalize_pass(&mut once);
    internalize_pass(&mut twice);
    internalize_pass(&mut twice);
    assert_eq!(once, twice);
}

#[test]
fn internalize_changes_nothing_but_linkage_and_visibility() {
    let mut m = merge_llvm_modules(vec![unit_a(), unit_b()]).unwrap();
    let before = m.clone();
    internalize_pass(&mut m);
    assert_eq!(m.name, before.name);
    assert_eq!(m.annotations, before.annotations);
    assert_eq!(m.used, before.used);
    assert_eq!(m.values.len(), before.values.len());
    for (after, old) in m.values.iter().zip(before.values.iter()) {
        assert_eq!(after.id, old.id);
        assert_eq!(after.kind, old.kind);
        assert_eq!(after.body, old.body);
    }
}

#[test]
fn sweep_follows_chains_through_functions_and_globals() {
    let mut m = Module::new("m");
    m.values.push(function(10, Linkage::Internal, vec![11]));
    m.values.push(global(11, Linkage::Internal, vec![12]));
    m.values.push(function(12, Linkage::Internal, vec![]));
    m.values.push(function(KERNEL_MAIN, Linkage::External, vec![10]));
    m.values.push(function(20, Linkage::Internal, vec![12, 21]));
    m.values.push(function(21, Linkage::Internal, vec![20]));
    assert_eq!(live_values(&m), vec![true, true, true, true, false, false]);
    dce_pass(&mut m);
    assert_eq!(ids(&m), vec![10, 11, 12, KERNEL_MAIN]);
}

#[test]
fn sweep_keeps_external_symbols_and_used_declarations() {
    let mut m = Module::new("m");
    m.values.push(Value::declaration(SINF, ValueKind::Function));
    m.values.push(function(KERNEL_MAIN, Linkage::External, vec![SINF, 99]));
    m.values.push(global(TABLE, Linkage::External, vec![]));
    let mut internal_declaration = Value::declaration(HELPER, ValueKind::Function);
    internal_declaration.set_linkage(Linkage::Internal, Visibility::Default);
    m.values.push(internal_declaration);
    dce_pass(&mut m);
    assert_eq!(ids(&m), vec![SINF, KERNEL_MAIN, TABLE]);
}

#[test]
fn sweep_ignores_what_a_declaration_cannot_hold() {
    // A dead symbol that refers to a live one does not become live.
    let mut m = Module::new("m");
    m.values.push(function(KERNEL_MAIN, Linkage::External, vec![]));
    m.values.push(function(UNUSED, Linkage::Internal, vec![KERNEL_MAIN]));
    dce_pass(&mut m);
    assert_eq!(ids(&m), vec![KERNEL_MAIN]);
}

#[test]
fn sweep_leaves_the_metadata() {
    let mut m = Module::new("m");
    m.values.push(function(UNUSED, Linkage::Internal, vec![]));
    m.annotations.push(kernel_annotation(UNUSED));
    m.used.push(retained_entry(UNUSED));
    dce_pass(&mut m);
    assert!(m.values.is_empty());
    assert_eq!(m.name, "m");
    assert_eq!(m.annotations, vec![kernel_annotation(UNUSED)]);
    assert_eq!(m.used, vec![retained_entry(UNUSED)]);
}

#[test]
fn sweep_twice_is_sweep_once() {
    let mut once = merge_llvm_modules(vec![unit_a(), unit_b()]).unwrap();
    internalize_pass(&mut once);
    dce_pass(&mut once);
    let mut twice = merge_llvm_modules(vec![unit_a(), unit_b()]).unwrap();
    internalize_pass(&mut twice);
    dce_pass(&mut twice);
    dce_pass(&mut twice);
    assert_eq!(once, twice);
}

#[test]
fn sweep_treats_symbols_of_one_name_alike() {
    let mut m = Module::new("m");
    m.values.push(function(HELPER, Linkage::Internal, vec![UNUSED]));
    m.values.push(function(HELPER, Linkage::External, vec![]));
    m.values.push(function(UNUSED, Linkage::Internal, vec![]));
    dce_pass(&mut m);
    assert_eq!(ids(&m), vec![HELPER, HELPER, UNUSED]);
}

#[test]
fn iterators_walk_one_kind_in_module_order() {
    let mut m = Module::new("m");
    m.values.push(global(TABLE, Linkage::External, vec![]));
    m.values.push(function(KERNEL_MAIN, Linkage::External, vec![]));
    m.values.push(Value::declaration(SINF, ValueKind::Function));
    m.values.push(Value::declaration(7, ValueKind::Global));
    m.values.push(function(HELPER, Linkage::Internal, vec![]));

    let mut functions = FunctionIter::new(&m);
    assert_eq!(functions.next(), Some(1));
    assert_eq!(functions.next(), Some(2));
    assert_eq!(functions.next(), Some(4));
    assert_eq!(functions.next(), None);
    assert_eq!(functions.next(), None);

    let mut globals = GlobalIter::new(&m);
    assert_eq!(globals.next(), Some(0));
    assert_eq!(globals.next(), Some(3));
    assert_eq!(globals.next(), None);
}

#[test]
fn iterators_of_an_empty_module_are_empty() {
    let m = Module::new("m");
    assert_eq!(FunctionIter::new(&m).next(), None);
    assert_eq!(GlobalIter::new(&m).next(), None);
}

#[test]
fn value_constructors_fill_the_fields() {
    let d = Value::declaration(SINF, ValueKind::Function);
    assert_eq!(d.id, SINF);
    assert_eq!(d.kind, ValueKind::Function);
    assert_eq!(d.linkage, Linkage::External);
    assert_eq!(d.visibility, Visibility::Default);
    assert_eq!(d.body, None);
    assert!(d.is_declaration());
    let f = global(TABLE, Linkage::Internal, vec![SINF]);
    assert_eq!(f.kind, ValueKind::Global);
    assert_eq!(f.linkage, Linkage::Internal);
    assert_eq!(f.body, Some(vec![SINF]));
    assert!(!f.is_declaration());
}

#[test]
fn the_named_nodes_are_the_well_known_ones() {
    assert_eq!(nvvm_codegen::ANNOTATIONS, "nvvm.annotations");
    assert_eq!(nvvm_codegen::RETAINED, "cg_nvvm_used");
}

#[test]
fn builders_append_in_order() {
    let mut m = Module::new("m");
    m.push(function(KERNEL_MAIN, Linkage::External, vec![]));
    m.push(Value::declaration(SINF, ValueKind::Function));
    m.annotate(MetadataNode::kernel(KERNEL_MAIN));
    m.retain(MetadataNode::retained(SINF));
    m.retain(MetadataNode::retained(KERNEL_MAIN));
    assert_eq!(m.name, "m");
    assert_eq!(ids(&m), vec![KERNEL_MAIN, SINF]);
    assert_eq!(m.annotations, vec![kernel_annotation(KERNEL_MAIN)]);
    assert_eq!(m.used, vec![retained_entry(SINF), retained_entry(KERNEL_MAIN)]);
}

#[test]
fn metadata_builders_write_the_marker() {
    assert_eq!(
        MetadataNode::kernel(9).operands,
        vec![Operand::Value(9), Operand::Text("kernel".to_string()), Operand::Other]
    );
    assert_eq!(MetadataNode::retained(9).operands, vec![Operand::Value(9)]);
    let mut m = Module::new("m");
    m.push(function(9, Linkage::External, vec![]));
    m.push(function(10, Linkage::Internal, vec![]));
    m.annotate(MetadataNode::kernel(9));
    m.retain(MetadataNode::retained(10));
    assert_eq!(nvvm_codegen::internalize::entry_points(&m), vec![9]);
    assert_eq!(nvvm_codegen::internalize::retained(&m), vec![10]);
    internalize_pass(&mut m);
    assert_eq!(m.values[0].linkage, Linkage::External);
    assert_eq!(m.values[1].linkage, Linkage::External);
}
