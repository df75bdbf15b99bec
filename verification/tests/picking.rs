use unit_sim::picking::{color_to_id, id_to_color};

#[test]
fn background_is_no_entity() {
    assert_eq!(color_to_id(&(255, 255, 255, 255)), None);
}

#[test]
fn channels_are_read_most_significant_first() {
    assert_eq!(color_to_id(&(0, 0, 0, 0)), Some(0));
    assert_eq!(color_to_id(&(0, 0, 0, 1)), Some(1));
    assert_eq!(color_to_id(&(0, 0, 1, 0)), Some(256));
    assert_eq!(color_to_id(&(0, 0, 1, 2)), Some(258));
    assert_eq!(color_to_id(&(0, 1, 0, 0)), Some(65_536));
    assert_eq!(color_to_id(&(1, 0, 0, 0)), Some(16_777_216));
    assert_eq!(color_to_id(&(1, 2, 3, 4)), Some(0x0102_0304));
    assert_eq!(color_to_id(&(0x12, 0x34, 0x56, 0x78)), Some(0x1234_5678));
}

#[test]
fn only_the_background_decodes_to_nothing() {
    assert_eq!(color_to_id(&(255, 255, 255, 254)), Some(0xffff_fffe));
    assert_eq!(color_to_id(&(255, 255, 254, 255)), Some(0xffff_feff));
    assert_eq!(color_to_id(&(255, 254, 255, 255)), Some(0xfffe_ffff));
    assert_eq!(color_to_id(&(254, 255, 255, 255)), Some(0xfeff_ffff));
    assert_eq!(color_to_id(&(255, 255, 255, 0)), Some(0xffff_ff00));
    assert_eq!(color_to_id(&(0, 255, 255, 255)), Some(0x00ff_ffff));
}

fn color_of(id: u32) -> (u8, u8, u8, u8) {
    let [red, green, blue, alpha] = id.to_be_bytes();
    (red, green, blue, alpha)
}

#[test]
fn decoding_undoes_the_encoding_of_small_identities() {
    for id in 0..70_000u32 {
        assert_eq!(color_to_id(&color_of(id)), Some(id));
    }
}

#[test]
fn decoding_undoes_the_encoding_across_the_range() {
    let mut id: u32 = 0;
    loop {
        assert_eq!(color_to_id(&color_of(id)), Some(id));
        match id.checked_add(0x0001_0203) {
            Some(next) if next != u32::MAX => id = next,
            _ => break,
        }
    }
    assert_eq!(color_to_id(&color_of(u32::MAX - 1)), Some(u32::MAX - 1));
}

#[test]
fn the_last_identity_is_drawn_in_the_background_colour() {
    assert_eq!(color_of(u32::MAX), (255, 255, 255, 255));
    assert_eq!(color_to_id(&color_of(u32::MAX)), None);
}

#[test]
fn distinct_samples_stand_for_distinct_identities() {
    let samples = [
        (0, 0, 0, 0),
        (0, 0, 0, 255),
        (0, 0, 255, 0),
        (0, 255, 0, 0),
        (255, 0, 0, 0),
        (1, 1, 1, 1),
        (255, 255, 255, 254),
    ];
    for (i, a) in samples.iter().enumerate() {
        for (j, b) in samples.iter().enumerate() {
            assert_eq!(color_to_id(a) == color_to_id(b), i == j);
        }
    }
}

#[test]
fn an_identity_is_drawn_in_its_four_digits() {
    assert_eq!(id_to_color(0), Some((0, 0, 0, 0)));
    assert_eq!(id_to_color(1), Some((0, 0, 0, 1)));
    assert_eq!(id_to_color(258), Some((0, 0, 1, 2)));
    assert_eq!(id_to_color(65_536), Some((0, 1, 0, 0)));
    assert_eq!(id_to_color(0x0102_0304), Some((1, 2, 3, 4)));
    assert_eq!(id_to_color(0x1234_5678), Some((0x12, 0x34, 0x56, 0x78)));
    assert_eq!(id_to_color(u32::MAX - 1), Some((255, 255, 255, 254)));
}

#[test]
fn the_last_identity_has_no_colour() {
    assert_eq!(id_to_color(u32::MAX), None);
}

#[test]
fn encoding_and_decoding_undo_each_other() {
    let mut id: u32 = 0;
    loop {
        let color = id_to_color(id).expect("only the last identity has no colour");
        assert_eq!(color, color_of(id));
        assert_eq!(color_to_id(&color), Some(id));
        match id.checked_add(0x0000_fedd) {
            Some(next) if next != u32::MAX => id = next,
            _ => break,
        }
    }
    for red in [0u8, 1, 127, 128, 254, 255] {
        for alpha in [0u8, 1, 254, 255] {
            let color = (red, 255 - red, 7, alpha);
            let id = color_to_id(&color).expect("not the background");
            assert_eq!(id_to_color(id), Some(color));
        }
    }
}
