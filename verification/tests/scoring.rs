use deep_sea::dice::{Dice, Die};
use deep_sea::treasure::TreasureValueAssigner;
use deep_sea::treasure::Treasure;

#[test]
fn test_assign_value_range() {
    let mut assigner = TreasureValueAssigner::new();
    for _ in 0..8 {
        let v = assigner.assign_value(Treasure::One);
        assert!(v <= 3);
    }
    let mut assigner = TreasureValueAssigner::new();
    for _ in 0..8 {
        let v = assigner.assign_value(Treasure::Four);
        assert!((12..=15).contains(&v));
    }
}

#[test]
fn test_assign_value_exhausts_buckets() {
    // each of the four offsets is available exactly twice per kind
    let mut assigner = TreasureValueAssigner::new();
    let mut counts = [0usize; 4];
    for _ in 0..8 {
        let v = assigner.assign_value(Treasure::Two);
        assert!((4..=7).contains(&v));
        counts[(v - 4) as usize] += 1;
    }
    assert_eq!(counts, [2, 2, 2, 2]);
}

#[test]
fn test_die_roll_is_a_face() {
    let die = Die::from_vec(vec![1, 1, 2, 2, 3, 3]);
    for _ in 0..20 {
        let r = die.roll();
        assert!((1..=3).contains(&r));
    }
    assert_eq!(die.values(), &vec![1, 1, 2, 2, 3, 3]);
}

#[test]
fn test_dice_roll_bounds() {
    let dice = Dice::from_vec(vec![
        Die::from_vec(vec![1, 1, 2, 2, 3, 3]),
        Die::from_vec(vec![1, 1, 2, 2, 3, 3]),
    ]);
    for _ in 0..20 {
        let r = dice.roll();
        assert!((2..=6).contains(&r));
    }
}
