use boule::slot::{BallColor, BallStyle, BallTheme, Slot, MAX_STYLES, PALETTE_SIZE};

#[test]
fn theme_alternates_with_the_index() {
    assert_eq!(BallTheme::from_index(0), BallTheme::Plain);
    assert_eq!(BallTheme::from_index(1), BallTheme::Hole);
    assert_eq!(BallTheme::from_index(2), BallTheme::Plain);
    assert_eq!(BallTheme::from_index(usize::MAX), BallTheme::Hole);
}

#[test]
fn every_style_is_distinct() {
    assert_eq!(PALETTE_SIZE, 10);
    assert_eq!(MAX_STYLES, 20);
    let styles: Vec<BallStyle> = (0..MAX_STYLES).map(|c| Slot::Ball(c).color()).collect();
    for i in 0..styles.len() {
        for j in 0..i {
            assert_ne!(styles[i], styles[j]);
        }
    }
}

#[test]
fn free_slot_has_the_background_colour() {
    assert_eq!(
        Slot::Empty.color(),
        BallStyle { color: BallColor::Background, theme: BallTheme::Plain }
    );
}

#[test]
fn colours_repeat_with_the_other_theme() {
    assert_eq!(
        Slot::Ball(0).color(),
        BallStyle { color: BallColor::Rgb(255, 239, 62), theme: BallTheme::Plain }
    );
    assert_eq!(
        Slot::Ball(3).color(),
        BallStyle { color: BallColor::Rgb(50, 219, 169), theme: BallTheme::Plain }
    );
    assert_eq!(
        Slot::Ball(9).color(),
        BallStyle { color: BallColor::Rgb(146, 186, 146), theme: BallTheme::Plain }
    );
    assert_eq!(
        Slot::Ball(13).color(),
        BallStyle { color: BallColor::Rgb(50, 219, 169), theme: BallTheme::Hole }
    );
    assert_eq!(
        Slot::Ball(20).color(),
        BallStyle { color: BallColor::Rgb(255, 239, 62), theme: BallTheme::Plain }
    );
}
