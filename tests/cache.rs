use ambrosia::{load_default_taxonomy, Taxonomy, TaxonomyCache};

fn same(a: &Taxonomy, b: &Taxonomy) -> bool {
    std::ptr::eq(a, b)
}

#[test]
fn cache_returns_one_shared_result() {
    let cache = TaxonomyCache::new();
    let first = cache.get().as_ref().expect("built-in taxonomy resolves");
    let second = cache.get().as_ref().expect("built-in taxonomy resolves");
    assert!(same(first, second));
}

#[test]
fn independent_caches_hold_equal_values() {
    let a = TaxonomyCache::new();
    let b = TaxonomyCache::new();
    let ta = a.get().as_ref().unwrap();
    let tb = b.get().as_ref().unwrap();
    assert!(!same(ta, tb));
    assert_eq!(ta.groups.len(), tb.groups.len());
    assert_eq!(ta.groups.get("dairy").unwrap(), tb.groups.get("dairy").unwrap());
    let fresh = load_default_taxonomy().unwrap();
    assert_eq!(fresh.diets.len(), ta.diets.len());
}
