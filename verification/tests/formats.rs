use manaline::format::PlayerRange;
use manaline::{CardPool, Format, FormatRule};

#[test]
fn builtin_formats_parse() {
    for name in Format::builtin_names() {
        let f = Format::builtin(name).unwrap();
        assert!(f.starting_hand > 0, "{name}");
    }
    let cube = Format::cube();
    assert_eq!(cube.players, PlayerRange { min: 2, max: 2 });
    assert_eq!(cube.starting_life, 20);
    assert_eq!(cube.max_hand_size, 7);
    assert_eq!(cube.legality.pool, CardPool::Builtin("core".to_string()));
    let cmd = Format::builtin("commander").unwrap();
    assert_eq!(cmd.starting_life, 40);
    assert!(cmd.rules.contains(&FormatRule::CommanderDamage(21)));
}
