use hocg_fan_sim_assets::model::{ArtPower, HoloPower, Order, QnaNumber, SheetCell};

#[test]
fn sheet_cell_from_row_col() {
    assert_eq!(SheetCell::from_row_col(1, 1).to_text(), "A1");
    assert_eq!(SheetCell::from_row_col(12, 2).to_text(), "B12");
    assert_eq!(SheetCell::from_row_col(3, 26).to_text(), "Z3");
    assert_eq!(SheetCell::from_row_col(3, 27).to_text(), "AA3");
    assert_eq!(SheetCell::from_row_col(7, 703).to_text(), "AAA7");
}

#[test]
fn sheet_cell_round_trip() {
    for row in [1usize, 9, 10, 123] {
        for col in [1usize, 2, 26, 27, 52, 53, 702, 703] {
            let cell = SheetCell::from_row_col(row, col);
            assert_eq!(cell.to_row_col(), Some((row, col)));
        }
    }
}

#[test]
fn sheet_cell_rejects_other_characters() {
    assert_eq!(SheetCell::from_string("A-1".to_string()).to_row_col(), None);
    assert_eq!(SheetCell::from_string("AB".to_string()).to_row_col(), None);
    assert_eq!(SheetCell::from_string("b3".to_string()).to_row_col(), Some((3, 2)));
}

#[test]
fn sheet_cell_order() {
    let a = SheetCell::from_string("B2".to_string());
    let b = SheetCell::from_string("A3".to_string());
    let bad = SheetCell::from_string("?".to_string());
    assert_eq!(a.compare(&b), Order::Less);
    assert_eq!(b.compare(&a), Order::Greater);
    assert_eq!(a.compare(&bad), Order::Less);
    assert_eq!(bad.compare(&bad), Order::Equal);
}

#[test]
fn art_power_text_round_trip() {
    for p in [
        ArtPower::Basic(50),
        ArtPower::Plus(20),
        ArtPower::Minus(10),
        ArtPower::Multiple(30),
        ArtPower::Uncertain,
    ] {
        assert_eq!(ArtPower::try_from_text(&p.to_text()), Ok(p));
    }
    assert_eq!(ArtPower::try_from_text("?"), Ok(ArtPower::Uncertain));
    assert_eq!(ArtPower::try_from_text("20+"), Ok(ArtPower::Plus(20)));
    assert!(ArtPower::try_from_text("abc").is_err());
}

#[test]
fn holo_power_text_round_trip() {
    assert_eq!(HoloPower::try_from_text("X"), Ok(HoloPower::X));
    assert_eq!(HoloPower::try_from_text("3"), Ok(HoloPower::Basic(3)));
    assert_eq!(HoloPower::Basic(3).to_text(), "3");
    assert_eq!(HoloPower::X.to_text(), "x");
    assert!(HoloPower::try_from_text("three").is_err());
}

#[test]
fn qna_number_order() {
    let a = QnaNumber::from_string("Q12".to_string());
    let b = QnaNumber::from_string("Q100".to_string());
    assert_eq!(a.number(), 12);
    assert_eq!(a.compare(&b), Order::Less);
    assert_eq!(QnaNumber::from_string("x".to_string()).number(), 0);
}
