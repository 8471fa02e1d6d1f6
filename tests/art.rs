use rebuild::art::Palette;
use rebuild::error::FormatError;

#[test]
fn art_test_load_slice() {
    let data = [0; 0x10301];
    if let Err(e) = Palette::new(&data) {
        panic!("Valid PALETTE errored out with '{}'", e.message());
    }
}

#[test]
fn art_test_not_enough_data() {
    let data = [0; 1];
    if let Ok(_) = Palette::new(&data) {
        panic!("Accepted incomplete header.");
    }
}

#[test]
fn palette_size_boundary() {
    assert_eq!(Palette::new(&[0u8; 769]).err(), Some(FormatError::PaletteTooSmall));
    assert_eq!(Palette::new(&[]).err(), Some(FormatError::PaletteTooSmall));
    assert!(Palette::new(&[0u8; 770]).is_ok());
}

#[test]
fn palette_colors_are_scaled_and_packed() {
    let mut data = vec![0u8; 770];
    data[0] = 1;
    data[1] = 2;
    data[2] = 3;
    data[3] = 63;
    data[4] = 63;
    data[5] = 63;
    // Out-of-range channel values keep only the low eight bits once scaled.
    data[765] = 64;
    data[766] = 0xff;
    data[767] = 0x41;
    let palette = Palette::new(&data).unwrap();
    let colors = palette.colors();
    assert_eq!(colors.len(), 256);
    assert_eq!(colors[0], 0xff04_080c);
    assert_eq!(colors[1], 0xfffc_fcfc);
    assert_eq!(colors[2], 0xff00_0000);
    assert_eq!(colors[255], 0xff00_fc04);
}
