use nutmeg::catalog::{algorithm_names, resolve_algorithm, snake};

#[test]
fn names_resolve_in_either_spelling() {
    assert_eq!(resolve_algorithm("shortest_paths"), Some("shortestPaths".to_string()));
    assert_eq!(resolve_algorithm("shortestPaths"), Some("shortestPaths".to_string()));
    assert_eq!(resolve_algorithm("PAGERANK"), Some("pagerank".to_string()));
    // Louvain stood here as the unknown name until Grust registered it.
    assert_eq!(resolve_algorithm("louvain"), Some("louvain".to_string()));
    assert_eq!(resolve_algorithm("not_an_algorithm"), None);
    assert_eq!(snake("multiSourceBfs"), "multi_source_bfs");
}

#[test]
fn the_catalog_names_every_kernel_once() {
    let names = algorithm_names();
    assert!(names.len() >= 12, "{names:?}");
    for (i, a) in names.iter().enumerate() {
        for b in &names[i + 1..] {
            assert_ne!(a, b);
        }
    }
}
