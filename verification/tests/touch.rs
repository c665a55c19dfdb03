use liwinux::num::Num;
use liwinux::touch::{Norm, PointerPool, TouchAction, MAX_POINTERS};

fn n(v: f32) -> Num {
    Num::of(v.to_bits())
}

fn f(v: Num) -> f32 {
    f32::from_bits(v.bits)
}

#[test]
fn norm_clamps_out_of_range() {
    let p = Norm::new(n(-0.5), n(2.0));
    assert_eq!((f(p.x), f(p.y)), (0.0, 1.0));
}

#[test]
fn unclamped_keeps_offscreen_coordinates() {
    let p = Norm::unclamped(n(2.5), n(-0.4));
    assert_eq!(f(p.x), 2.5);
    assert_eq!(f(p.y), -0.4);
    assert!(p.is_offscreen());
    assert!(!Norm::new(n(0.5), n(0.5)).is_offscreen());
}

#[test]
fn acquire_is_idempotent_per_binding() {
    let mut p = PointerPool::new();
    let a = p.acquire("fire").unwrap();
    let b = p.acquire("fire").unwrap();
    assert_eq!(a, b, "the same binding must get the same pointer");
    assert_eq!(p.active_count(), 1);
}

#[test]
fn different_bindings_get_different_pointers() {
    let mut p = PointerPool::new();
    let a = p.acquire("move").unwrap();
    let b = p.acquire("fire").unwrap();
    assert_ne!(a, b);
    assert_eq!(p.active_count(), 2);
}

#[test]
fn released_id_returns_to_pool() {
    let mut p = PointerPool::new();
    let a = p.acquire("x").unwrap();
    let _ = p.release("x");
    assert_eq!(p.active_count(), 0);
    let b = p.acquire("y").unwrap();
    assert_eq!(a, b, "a freed id must become reusable");
}

#[test]
fn pool_exhaustion_returns_none_not_wrong_id() {
    let mut p = PointerPool::new();
    for i in 0..MAX_POINTERS {
        assert!(p.acquire(&format!("b{i}")).is_some());
    }
    assert!(p.acquire("one_too_many").is_none(), "a full pool must return None");
}

#[test]
fn release_all_lifts_every_finger() {
    let mut p = PointerPool::new();
    let _ = p.acquire("a");
    let _ = p.acquire("b");
    let _ = p.acquire("c");
    let acts = p.release_all();
    assert_eq!(acts.len(), 3);
    assert!(acts.iter().all(|a| matches!(a, TouchAction::Up { .. })));
    assert_eq!(p.active_count(), 0);
}

#[test]
fn rotate_yields_a_different_pointer() {
    let mut p = PointerPool::new();
    let a = p.acquire("aim").unwrap();
    let (old, new) = p.rotate("aim").unwrap();
    assert_eq!(old, a);
    assert_ne!(new, a, "the new id must differ");
    assert_eq!(p.get("aim"), Some(new));
    assert_eq!(p.active_count(), 1, "the old id must be released");
}

#[test]
fn rotate_on_unknown_binding_is_none() {
    let mut p = PointerPool::new();
    assert!(p.rotate("missing").is_none());
}

#[test]
fn rotate_when_full_keeps_the_old_pointer() {
    let mut p = PointerPool::new();
    for i in 0..MAX_POINTERS {
        p.acquire(&format!("b{i}"));
    }
    let before = p.get("b0").unwrap();
    assert!(p.rotate("b0").is_none());
    assert_eq!(p.get("b0"), Some(before), "the old id must be kept");
    assert_eq!(p.active_count(), MAX_POINTERS);
}

#[test]
fn releasing_unknown_binding_is_harmless() {
    let mut p = PointerPool::new();
    assert!(p.release("missing").is_none());
}

#[test]
fn renaming_keeps_the_pointer() {
    let mut p = PointerPool::new();
    let a = p.acquire("old").unwrap();
    assert_eq!(p.rename("old", "new"), Some(a));
    assert_eq!(p.get("old"), None);
    assert_eq!(p.get("new"), Some(a));
    assert_eq!(p.active_count(), 1);
    assert_eq!(p.rename("gone", "elsewhere"), None);
}

/// Comparison follows single precision numbers, including the odd ones.
#[test]
fn numbers_compare_as_the_machine_does() {
    let values = [
        -f32::INFINITY, -2.5, -1.0, -f32::MIN_POSITIVE, -0.0, 0.0, 1e-40, 0.1, 1.0, 3.5e8,
        f32::INFINITY, f32::NAN,
    ];
    for a in values {
        for b in values {
            assert_eq!(n(a).less(n(b)), a < b, "{a} < {b}");
            assert_eq!(n(a).at_most(n(b)), a <= b, "{a} <= {b}");
            assert_eq!(n(a).same(n(b)), a == b, "{a} == {b}");
        }
        assert_eq!(n(a).is_nan(), a.is_nan());
        if !a.is_nan() {
            assert_eq!(f(n(a).clamp(n(0.0), n(1.0))), a.clamp(0.0, 1.0));
        }
    }
}

/// The pointers in use are the ones that somebody owns, but for a name that is
/// taken over: what it owned before is nobody's and stays in use.
#[test]
fn the_count_is_the_number_of_owners() {
    let mut p = PointerPool::new();
    let a = p.acquire("a").unwrap();
    let b = p.acquire("b").unwrap();
    assert_ne!(a, b);
    assert_eq!(p.active_count(), 2);
    assert_eq!(p.rename("a", "c"), Some(a));
    assert_eq!(p.active_count(), 2);
    assert_eq!(p.release("c"), Some(a));
    assert_eq!(p.release("b"), Some(b));
    assert_eq!(p.active_count(), 0);
}
