use hakai_core::sounds::{embedded_wav, sound_index, SOUND_NAMES};

#[test]
fn thirty_five_sounds_in_the_bank() {
    assert_eq!(SOUND_NAMES.len(), 35);
}

#[test]
fn sounds_are_found_by_name() {
    assert_eq!(sound_index(&SOUND_NAMES, "flame_begin"), Some(0));
    assert_eq!(sound_index(&SOUND_NAMES, "wash_start"), Some(34));
    assert_eq!(sound_index(&SOUND_NAMES, "smash8"), Some(26));
    assert_eq!(sound_index(&SOUND_NAMES, "nope"), None);
}

#[test]
fn a_sound_is_served_from_its_slot_in_the_bank() {
    let bank: Vec<Vec<u8>> = (0..SOUND_NAMES.len()).map(|i| vec![i as u8; 3]).collect();
    assert_eq!(embedded_wav("smash1", &bank), Some(&[19u8, 19, 19][..]));
    assert_eq!(embedded_wav("missing", &bank), None);
    let short: Vec<Vec<u8>> = vec![vec![1, 2]];
    assert_eq!(embedded_wav("flame_begin", &short), Some(&[1u8, 2][..]));
    assert_eq!(embedded_wav("flame_end", &short), None);
}
