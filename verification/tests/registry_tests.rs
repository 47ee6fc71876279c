use cjs_bundle::registry::ModuleRegistry;

#[test]
fn first_registration_is_zero() {
    let mut r = ModuleRegistry::new();
    assert_eq!(r.len(), 0);
    assert_eq!(r.register("/w/main.js".to_string()), 0);
    assert_eq!(r.len(), 1);
}

#[test]
fn ids_are_dense_and_in_registration_order() {
    let mut r = ModuleRegistry::new();
    assert_eq!(r.register("/a".to_string()), 0);
    assert_eq!(r.register("/b".to_string()), 1);
    assert_eq!(r.register("/c".to_string()), 2);
    assert_eq!(r.len(), 3);
}

#[test]
fn register_is_idempotent() {
    let mut r = ModuleRegistry::new();
    assert_eq!(r.register("/a".to_string()), 0);
    assert_eq!(r.register("/b".to_string()), 1);
    assert_eq!(r.register("/a".to_string()), 0);
    assert_eq!(r.register("/b".to_string()), 1);
    assert_eq!(r.len(), 2);
}

#[test]
fn id_of_looks_up_without_registering() {
    let mut r = ModuleRegistry::new();
    assert_eq!(r.id_of(&"/a".to_string()), None);
    r.register("/a".to_string());
    r.register("/b".to_string());
    assert_eq!(r.id_of(&"/a".to_string()), Some(0));
    assert_eq!(r.id_of(&"/b".to_string()), Some(1));
    assert_eq!(r.id_of(&"/c".to_string()), None);
    assert_eq!(r.len(), 2);
}

#[test]
fn entry_keeps_id_zero() {
    let mut r = ModuleRegistry::new();
    r.register("/entry".to_string());
    let mut n: u32 = 0;
    while n < 50 {
        r.register(format!("/m{}", n));
        n += 1;
    }
    assert_eq!(r.id_of(&"/entry".to_string()), Some(0));
    assert_eq!(r.register("/entry".to_string()), 0);
    assert_eq!(r.len(), 51);
}

#[test]
fn sentinel_is_a_path_like_any_other() {
    let mut r = ModuleRegistry::new();
    r.register("/a".to_string());
    assert_eq!(r.register(String::new()), 1);
    assert_eq!(r.register(String::new()), 1);
    assert_eq!(r.len(), 2);
}
