use tensor_dispatch::kernels::{all_ids, module_index, Id, Module, Registry, MODULE_COUNT};

#[test]
fn module_index_follows_the_canonical_ordering() {
    assert_eq!(module_index(Id::Affine), 0);
    assert_eq!(module_index(Id::Binary), 1);
    assert_eq!(module_index(Id::Cast), 2);
    assert_eq!(module_index(Id::Conv), 3);
    assert_eq!(module_index(Id::Fill), 4);
    assert_eq!(module_index(Id::Indexing), 5);
    assert_eq!(module_index(Id::Quantized), 6);
    assert_eq!(module_index(Id::Reduce), 7);
    assert_eq!(module_index(Id::Sort), 8);
    assert_eq!(module_index(Id::Ternary), 9);
    assert_eq!(module_index(Id::Unary), 10);
}

#[test]
fn module_index_is_a_bijection_over_the_id_set() {
    let ids = all_ids();
    assert_eq!(ids.len(), MODULE_COUNT);
    let mut seen = vec![false; MODULE_COUNT];
    for id in ids {
        let i = module_index(id);
        assert!(i < MODULE_COUNT);
        assert!(!seen[i]);
        seen[i] = true;
    }
    assert!(seen.iter().all(|&s| s));
}

#[test]
fn module_index_is_stable_across_calls() {
    for id in all_ids() {
        assert_eq!(module_index(id), module_index(id));
    }
}

#[test]
fn module_carries_its_index_and_kernel_text() {
    let m = Module::new(Id::Reduce, "reduce kernel text");
    assert_eq!(m.index(), 7);
    assert_eq!(m.ptx(), "reduce kernel text");
}

#[test]
fn registry_holds_every_module_at_its_index() {
    let sources = vec![
        "affine", "binary", "cast", "conv", "fill", "indexing", "quantized", "reduce", "sort",
        "ternary", "unary",
    ];
    let registry = Registry::new(sources);
    assert_eq!(registry.get(Id::Affine).ptx(), "affine");
    assert_eq!(registry.get(Id::Affine).index(), 0);
    assert_eq!(registry.get(Id::Quantized).ptx(), "quantized");
    assert_eq!(registry.get(Id::Quantized).index(), 6);
    assert_eq!(registry.get(Id::Unary).ptx(), "unary");
    assert_eq!(registry.get(Id::Unary).index(), 10);
}
