use rend::hashing::{child, fnv128, state_root, FNV_OFFSET};

#[test]
fn deterministic() {
    assert_eq!(fnv128(b"hello"), fnv128(b"hello"));
    assert_ne!(fnv128(b"hello"), fnv128(b"hellp"));
}

#[test]
fn known_offset() {
    assert_eq!(fnv128(b""), FNV_OFFSET);
}

#[test]
fn state_roots_namespace_by_module() {
    let a = state_root("mod_a", "count");
    let b = state_root("mod_b", "count");
    assert_ne!(a, b, "same state name in different modules must collide-free");
}

#[test]
fn state_roots_distinguish_names() {
    assert_ne!(state_root("m", "x"), state_root("m", "y"));
}

#[test]
fn child_is_stable() {
    let root = state_root("m", "balances");
    assert_eq!(child(root, &[1, 2, 3]), child(root, &[1, 2, 3]));
    assert_ne!(child(root, &[1, 2, 3]), child(root, &[1, 2, 4]));
}

#[test]
fn fnv_of_one_letter() {
    assert_eq!(fnv128(b"a"), 0xd228cb696f1a8caf78912b704e4a8964);
}
