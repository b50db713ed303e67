use hakai_core::effects::{death_sound, landing_sound, splat_color, Cause, ParticleKind};
use hakai_core::rng::SeededRng;

#[test]
fn squished_and_burnt_termites_sound_different() {
    assert_eq!(death_sound(Cause::Squish), "termite_squish");
    assert_eq!(death_sound(Cause::Flame), "termite_dead");
}

#[test]
fn only_shells_clink() {
    let mut rng = SeededRng::new(8);
    let name = landing_sound(ParticleKind::Shell, &mut rng).unwrap();
    assert!(["shell1", "shell2", "shell3"].contains(&name.as_str()));
    let mut a = SeededRng::new(8);
    let mut b = SeededRng::new(8);
    assert_eq!(landing_sound(ParticleKind::Generic { variant: 2 }, &mut a), None);
    assert_eq!(landing_sound(ParticleKind::Droplet { color_index: 1 }, &mut a), None);
    assert_eq!(a.next_u64(), b.next_u64());
}

#[test]
fn only_droplets_splat() {
    assert_eq!(splat_color(ParticleKind::Droplet { color_index: 5 }), Some(5));
    assert_eq!(splat_color(ParticleKind::Shell), None);
    assert_eq!(splat_color(ParticleKind::Generic { variant: 0 }), None);
}
