use cheri_perms::perms::{check_pointer, should_check_stack, Permission, PermissionSet};
use std::cell::Cell;

const ALL: [Permission; 12] = [
    Permission::Global,
    Permission::LoadGlobal,
    Permission::Store,
    Permission::LoadMutable,
    Permission::StoreLocal,
    Permission::Load,
    Permission::LoadStoreCapability,
    Permission::AccessSystemRegisters,
    Permission::Execute,
    Permission::Unseal,
    Permission::Seal,
    Permission::User0,
];

#[test]
fn bit_follows_fixed_index() {
    for (i, p) in ALL.iter().enumerate() {
        assert_eq!(p.bit(), 1u32 << i);
    }
    assert_eq!(Permission::Load.bit(), 32);
    assert_eq!(Permission::Execute.bit(), 256);
}

#[test]
fn bits_are_unique_and_disjoint() {
    for p in ALL.iter() {
        for q in ALL.iter() {
            if p != q {
                assert_ne!(p.bit(), q.bit());
                assert_eq!(p.bit() & q.bit(), 0);
            }
        }
    }
}

#[test]
fn empty_contains_nothing() {
    let e = PermissionSet::empty();
    assert_eq!(e.as_raw(), 0);
    for p in ALL.iter() {
        assert!(!e.contains(*p));
    }
}

#[test]
fn add_permission_is_idempotent() {
    let mut once = PermissionSet::from_iter(&[Permission::Store]);
    once.add_permission(Permission::Seal);
    let mut twice = once;
    twice.add_permission(Permission::Seal);
    assert!(once == twice);
    assert_eq!(once.as_raw(), twice.as_raw());
    assert_eq!(once.as_raw(), (1 << 2) | (1 << 10));
}

#[test]
fn from_iter_ignores_order_and_repeats() {
    let a = PermissionSet::from_iter(&[Permission::Load, Permission::Execute, Permission::Global]);
    let b = PermissionSet::from_iter(&[Permission::Global, Permission::Load, Permission::Execute]);
    let c = PermissionSet::from_iter(&[Permission::Execute, Permission::Global, Permission::Load]);
    assert_eq!(a.as_raw(), b.as_raw());
    assert_eq!(b.as_raw(), c.as_raw());
    assert_eq!(a.as_raw(), 1 | 32 | 256);
    let d = PermissionSet::from_iter(&[Permission::Load, Permission::Load]);
    let e = PermissionSet::from_iter(&[Permission::Load]);
    assert!(d == e);
}

#[test]
fn from_iter_empty_slice_is_empty() {
    let s = PermissionSet::from_iter(&[]);
    assert!(s == PermissionSet::empty());
    assert_eq!(s.to_string(), "()");
}

#[test]
fn all_permissions_fill_twelve_bits() {
    let s = PermissionSet::from_iter(&ALL);
    assert_eq!(s.as_raw(), 0xFFF);
    assert_eq!(s.to_string(), "(G<Lg>Wm<Sl>RcsXuS)");
}

#[test]
fn contains_after_add() {
    let mut s = PermissionSet::from_iter(&[Permission::Load]);
    assert!(!s.contains(Permission::Execute));
    s.add_permission(Permission::Execute);
    assert!(s.contains(Permission::Execute));
    assert!(s.contains(Permission::Load));
    for q in ALL.iter() {
        if *q != Permission::Execute && *q != Permission::Load {
            assert!(!s.contains(*q));
        }
    }
}

#[test]
fn stack_check_derivation() {
    let load = PermissionSet::from_iter(&[Permission::Load]);
    let global_load = PermissionSet::from_iter(&[Permission::Global, Permission::Load]);
    assert!(!should_check_stack(&load, true));
    assert!(should_check_stack(&global_load, true));
    assert!(!should_check_stack(&global_load, false));
    assert!(!should_check_stack(&load, false));
    assert!(!should_check_stack(&PermissionSet::empty(), false));
}

#[test]
fn rendering() {
    assert_eq!(PermissionSet::empty().to_string(), "()");
    let s = PermissionSet::from_iter(&[Permission::Global, Permission::Load, Permission::Execute]);
    assert_eq!(s.to_string(), "(GRX)");
    let s = PermissionSet::from_iter(&[Permission::LoadGlobal, Permission::StoreLocal]);
    assert_eq!(s.to_string(), "(<Lg><Sl>)");
    let s = PermissionSet::from_iter(&[Permission::Execute, Permission::Global, Permission::Load]);
    assert_eq!(s.to_string(), "(GRX)");
    let s = PermissionSet::from_iter(&[Permission::User0]);
    assert_eq!(s.to_string(), "()");
}

#[test]
fn scenario_load_execute_set() {
    let s = PermissionSet::from_iter(&[Permission::Load, Permission::Execute]);
    assert!(s.contains(Permission::Load));
    assert!(!s.contains(Permission::Store));
    assert_eq!(s.to_string(), "(RX)");
}

#[test]
fn scenario_null_pointer_validation() {
    let perms = PermissionSet::from_iter(&[Permission::Load, Permission::Execute]);
    for verdict in [false, true] {
        let seen = Cell::new(None);
        let r = check_pointer(0usize, 0, &perms, false, |ptr, space, raw, stack| {
            seen.set(Some((ptr, space, raw, stack)));
            verdict
        });
        assert_eq!(r, verdict);
        assert_eq!(
            seen.get(),
            Some((0usize, 0usize, Permission::Load.bit() | Permission::Execute.bit(), false))
        );
    }
}

#[test]
fn check_pointer_forwards_stack_check_only_with_global() {
    let seen = Cell::new(None);
    let local = PermissionSet::from_iter(&[Permission::Load]);
    check_pointer(16usize, 4, &local, true, |_, _, _, stack| {
        seen.set(Some(stack));
        true
    });
    assert_eq!(seen.get(), Some(false));
    let global = PermissionSet::from_iter(&[Permission::Global, Permission::Load]);
    check_pointer(16usize, 4, &global, true, |_, space, raw, stack| {
        seen.set(Some(stack));
        assert_eq!(space, 4);
        assert_eq!(raw, 1 | 32);
        false
    });
    assert_eq!(seen.get(), Some(true));
}
