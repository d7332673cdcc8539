use airpcez::catalog::model_catalog;

#[test]
fn catalog_has_known_models_with_sane_meta() {
    let c = model_catalog();
    assert!(c.len() >= 3);
    let moe = c.iter().find(|e| e.hf.contains("35B-A3B")).unwrap();
    assert!(moe.meta.is_moe && moe.meta.n_layers > 0 && moe.meta.total_mib > 10_000);
    let dense70 = c.iter().find(|e| e.hf.contains("70B")).unwrap();
    assert!(!dense70.meta.is_moe && dense70.meta.total_mib > 35_000);
}
