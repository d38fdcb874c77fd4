use std::str::FromStr;
use streamdeck_emotes::grid::{DeviceModel, Position};

#[test]
fn standard_grid_is_five_by_three() {
    assert_eq!(DeviceModel::Standard.size(), (5, 3));
    assert_eq!(DeviceModel::Standard.id(), "20GBA9901");
    assert_eq!(Position::new(1, 2), Position { x: 1, y: 2 });
}

#[test]
fn models_are_named_by_tag_in_any_case() {
    assert_eq!(DeviceModel::from_tag("standard").unwrap(), DeviceModel::Standard);
    assert_eq!(DeviceModel::from_tag("XL").unwrap(), DeviceModel::XL);
    assert_eq!(DeviceModel::from_tag("Mini").unwrap(), DeviceModel::Mini);
    assert_eq!(DeviceModel::from_str("xl").unwrap(), DeviceModel::XL);
    assert_eq!("STANDARD".parse::<DeviceModel>().unwrap(), DeviceModel::Standard);
}

#[test]
fn unknown_tag_is_reported_in_lower_case() {
    let error = DeviceModel::from_tag("Plus").unwrap_err();
    assert_eq!(error.tag, "plus");
    assert_eq!(error.message(), "Unknown device model plus");
    assert!(DeviceModel::from_tag("").is_err());
    assert!(DeviceModel::from_tag("standard ").is_err());
    assert!(DeviceModel::from_lowercase("XL".to_owned()).is_err());
    assert_eq!(
        DeviceModel::from_lowercase("xl".to_owned()).unwrap(),
        DeviceModel::XL
    );
}

#[test]
fn sizes_and_identifiers_of_all_models() {
    assert_eq!(DeviceModel::Standard.size(), (5, 3));
    assert_eq!(DeviceModel::XL.size(), (4, 8));
    assert_eq!(DeviceModel::Mini.size(), (3, 2));
    assert_eq!(DeviceModel::Standard.id(), "20GBA9901");
    assert_eq!(DeviceModel::XL.id(), "20GAT9901");
    assert_eq!(DeviceModel::Mini.id(), "unknown");
}
