use manaline::types::{Color, Mana, ManaPool, Phase};

#[test]
fn phase_order() {
    assert_eq!(Phase::Untap.next(), Some(Phase::Upkeep));
    assert_eq!(Phase::Cleanup.next(), None);
    assert!(!Phase::Untap.has_priority());
    assert!(Phase::Main2.is_main());
}

#[test]
fn pool_arithmetic() {
    let mut p = ManaPool::default();
    p.add(Mana::Colored(Color::Red), 2);
    assert_eq!(p.total(), 2);
    assert!(!p.remove(Mana::Colored(Color::Red), 3));
    assert!(p.remove(Mana::Colored(Color::Red), 2));
    assert!(p.is_empty());
    assert_eq!(p.text(), "-");
}
