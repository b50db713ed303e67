use hakai_core::audio::{numbered_name, smash_name};
use hakai_core::rng::SeededRng;

#[test]
fn brightness_selects_the_impact_variant() {
    let mut rng = SeededRng::new(5);
    assert_eq!(smash_name(Some(10), &mut rng), "smash1");
    assert_eq!(smash_name(Some(245), &mut rng), "smash8");
}

#[test]
fn brightness_boundaries_are_clamped_into_range() {
    let mut rng = SeededRng::new(1);
    assert_eq!(smash_name(Some(0), &mut rng), "smash1");
    assert_eq!(smash_name(Some(255), &mut rng), "smash8");
}

#[test]
fn unknown_brightness_is_random_but_in_range() {
    let names = ["smash1", "smash2", "smash3", "smash4", "smash5", "smash6", "smash7", "smash8"];
    let mut rng = SeededRng::new(9);
    for _ in 0..200 {
        let name = smash_name(None, &mut rng);
        assert!(names.contains(&name));
    }
}

#[test]
fn brightness_bands_are_a_thirty_second_of_the_range_each() {
    let mut rng = SeededRng::new(1);
    assert_eq!(smash_name(Some(31), &mut rng), "smash1");
    assert_eq!(smash_name(Some(32), &mut rng), "smash2");
    assert_eq!(smash_name(Some(128), &mut rng), "smash5");
    assert_eq!(smash_name(Some(224), &mut rng), "smash8");
}

#[test]
fn a_known_brightness_leaves_the_generator_alone() {
    let mut a = SeededRng::new(4);
    let mut b = SeededRng::new(4);
    smash_name(Some(100), &mut a);
    assert_eq!(a.next_u64(), b.next_u64());
}

#[test]
fn an_unknown_brightness_draws_once() {
    let mut a = SeededRng::new(4);
    let mut b = SeededRng::new(4);
    let name = smash_name(None, &mut a);
    let x = b.next_u64();
    assert_eq!(name, format!("smash{}", 1 + x % 8));
    assert_eq!(a.next_u64(), b.next_u64());
}

#[test]
fn numbered_name_stays_in_its_group() {
    let mut rng = SeededRng::new(2);
    for _ in 0..100 {
        let name = numbered_name("shell", 3, &mut rng);
        assert!(["shell1", "shell2", "shell3"].contains(&name.as_str()), "{name}");
    }
}

#[test]
fn numbered_name_of_an_empty_group_is_the_first() {
    let mut rng = SeededRng::new(2);
    assert_eq!(numbered_name("stamp", 0, &mut rng), "stamp1");
}
