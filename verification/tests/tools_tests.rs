use hakai_core::tools::{icon_variant_key, ToolId};

#[test]
fn key_digits_are_1_through_9_in_order() {
    for (i, id) in ToolId::ALL.iter().enumerate() {
        assert_eq!(id.key_digit(), i as i32 + 1);
    }
}

#[test]
fn from_key_digit_round_trips() {
    for id in ToolId::ALL {
        assert_eq!(ToolId::from_key_digit(id.key_digit()), Some(id));
    }
    assert_eq!(ToolId::from_key_digit(0), None);
    assert_eq!(ToolId::from_key_digit(10), None);
}

#[test]
fn display_names_match_the_palette_labels() {
    assert_eq!(ToolId::Hammer.display_name(), "Hammer");
    assert_eq!(ToolId::Washer.display_name(), "Washer");
    assert_eq!(ToolId::ALL.len(), 9);
}

#[test]
fn cycling_wraps_both_ways() {
    assert_eq!(ToolId::Washer.cycled(1), ToolId::Hammer);
    assert_eq!(ToolId::Hammer.cycled(-1), ToolId::Washer);
    assert_eq!(ToolId::Hammer.cycled(1), ToolId::ChainSaw);
    for id in ToolId::ALL {
        assert_eq!(id.cycled(1).cycled(-1), id);
    }
}

#[test]
fn index_and_from_index_agree_with_the_table() {
    for (i, id) in ToolId::all().iter().enumerate() {
        assert_eq!(id.index(), i);
        assert_eq!(ToolId::from_index(i), *id);
    }
}

#[test]
fn pressed_and_idle_icon_variants_differ_only_where_the_icon_does() {
    assert_eq!(icon_variant_key(ToolId::Hammer, true), icon_variant_key(ToolId::Hammer, false));
    assert_ne!(icon_variant_key(ToolId::ChainSaw, true), icon_variant_key(ToolId::ChainSaw, false));
    assert_ne!(icon_variant_key(ToolId::Stamp, true), icon_variant_key(ToolId::Stamp, false));
}
