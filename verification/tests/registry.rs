use chat_hub::allocator::IdAllocator;
use chat_hub::registry::{name_for, Registry, User};

fn names(list: &[&str]) -> Vec<String> {
    list.iter().map(|name| name.to_string()).collect()
}

#[test]
fn allocator_counts_from_one() {
    let mut ids = IdAllocator::new();
    assert!(!ids.exhausted());
    assert_eq!(ids.next(), 1);
    assert_eq!(ids.next(), 2);
    assert_eq!(ids.next(), 3);
}

#[test]
fn allocator_ids_are_pairwise_distinct() {
    let mut ids = IdAllocator::new();
    let mut seen = Vec::new();
    for _ in 0..1000 {
        let id = ids.next();
        assert!(id >= 1);
        assert!(!seen.contains(&id));
        seen.push(id);
    }
}

#[test]
fn user_is_named_after_its_id() {
    let mut ids = IdAllocator::new();
    let first = User::new(&mut ids);
    assert_eq!(first.id, 1);
    assert_eq!(first.name, "User 1");
    for _ in 0..8 {
        User::new(&mut ids);
    }
    let tenth = User::new(&mut ids);
    assert_eq!(tenth.id, 10);
    assert_eq!(tenth.name, "User 10");
}

#[test]
fn names_are_written_in_decimal() {
    assert_eq!(name_for(0), "User 0");
    assert_eq!(name_for(7), "User 7");
    assert_eq!(name_for(1024), "User 1024");
    assert_eq!(name_for(usize::MAX), format!("User {}", usize::MAX));
}

#[test]
fn new_registry_is_empty() {
    let registry = Registry::new();
    assert_eq!(registry.len(), 0);
    assert!(!registry.full());
    assert!(!registry.contains(1));
    assert_eq!(registry.name_of(1), None);
    assert_eq!(registry.names_except(1), names(&[]));
}

#[test]
fn add_returns_the_new_user() {
    let mut registry = Registry::new();
    let user = registry.add();
    assert_eq!(user.id, 1);
    assert_eq!(user.name, "User 1");
    let user = registry.add();
    assert_eq!(user.id, 2);
    assert_eq!(user.name, "User 2");
    assert_eq!(registry.len(), 2);
    assert!(registry.contains(1));
    assert!(registry.contains(2));
    assert!(!registry.contains(3));
}

#[test]
fn ids_are_never_reused_after_removal() {
    let mut registry = Registry::new();
    let mut seen = Vec::new();
    for round in 0..50usize {
        let id = registry.add().id;
        assert!(!seen.contains(&id));
        seen.push(id);
        if round % 2 == 0 {
            assert!(registry.remove(id).is_some());
        }
        if round % 5 == 0 {
            registry.remove(seen[round / 2]);
        }
    }
    assert_eq!(seen, (1..=50).collect::<Vec<usize>>());
}

#[test]
fn names_except_leaves_out_the_one_who_asks() {
    let mut registry = Registry::new();
    for _ in 0..12 {
        registry.add();
    }
    for id in 1..=12usize {
        let others = registry.names_except(id);
        assert_eq!(others.len(), 11);
        assert!(!others.contains(&format!("User {id}")));
        for other in 1..=12usize {
            if other != id {
                assert!(others.contains(&format!("User {other}")));
            }
        }
    }
}

#[test]
fn names_except_keeps_the_order_of_arrival() {
    let mut registry = Registry::new();
    for _ in 0..4 {
        registry.add();
    }
    assert_eq!(registry.names_except(3), names(&["User 1", "User 2", "User 4"]));
    assert_eq!(registry.names_except(1), names(&["User 2", "User 3", "User 4"]));
    assert_eq!(
        registry.names_except(9),
        names(&["User 1", "User 2", "User 3", "User 4"])
    );
}

#[test]
fn name_of_finds_registered_users_only() {
    let mut registry = Registry::new();
    registry.add();
    registry.add();
    assert_eq!(registry.name_of(2), Some("User 2".to_string()));
    assert_eq!(registry.name_of(0), None);
    assert_eq!(registry.name_of(3), None);
    registry.remove(2);
    assert_eq!(registry.name_of(2), None);
    assert_eq!(registry.name_of(1), Some("User 1".to_string()));
}

#[test]
fn remove_takes_the_user_out() {
    let mut registry = Registry::new();
    for _ in 0..3 {
        registry.add();
    }
    let removed = registry.remove(2).unwrap();
    assert_eq!(removed.id, 2);
    assert_eq!(removed.name, "User 2");
    assert_eq!(registry.len(), 2);
    assert!(!registry.contains(2));
    assert_eq!(registry.names_except(1), names(&["User 3"]));
    assert_eq!(registry.names_except(3), names(&["User 1"]));
}

#[test]
fn remove_of_a_missing_user_changes_nothing() {
    let mut registry = Registry::new();
    registry.add();
    registry.add();
    assert!(registry.remove(7).is_none());
    assert!(registry.remove(0).is_none());
    assert_eq!(registry.len(), 2);
    assert!(registry.remove(1).is_some());
    assert!(registry.remove(1).is_none());
    assert_eq!(registry.len(), 1);
    assert_eq!(registry.names_except(1), names(&["User 2"]));
    let next = registry.add().id;
    assert_eq!(next, 3);
}
