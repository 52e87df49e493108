use photosort::category::CategoryKey;
use photosort::model::{export_status_to_str, str_to_export_status, ExportStatus};

#[test]
fn machine_keys_are_stable() {
    assert_eq!(CategoryKey::ScreenshotDocument.as_str(), "screenshot_document");
    assert_eq!(CategoryKey::People.as_str(), "people");
    assert_eq!(CategoryKey::FoodCafe.as_str(), "food_cafe");
    assert_eq!(CategoryKey::NatureLandscape.as_str(), "nature_landscape");
    assert_eq!(CategoryKey::CityStreetTravel.as_str(), "city_street_travel");
    assert_eq!(CategoryKey::PetsAnimals.as_str(), "pets_animals");
    assert_eq!(CategoryKey::ProductsObjects.as_str(), "products_objects");
    assert_eq!(CategoryKey::Other.as_str(), "other");
}

#[test]
fn folder_labels_are_localized() {
    assert_eq!(CategoryKey::ScreenshotDocument.dir_name_ko(), "스크린샷_문서");
    assert_eq!(CategoryKey::People.dir_name_ko(), "사람");
    assert_eq!(CategoryKey::FoodCafe.dir_name_ko(), "음식_카페");
    assert_eq!(CategoryKey::NatureLandscape.dir_name_ko(), "자연_풍경");
    assert_eq!(CategoryKey::CityStreetTravel.dir_name_ko(), "도시_여행");
    assert_eq!(CategoryKey::PetsAnimals.dir_name_ko(), "동물");
    assert_eq!(CategoryKey::ProductsObjects.dir_name_ko(), "사물");
    assert_eq!(CategoryKey::Other.dir_name_ko(), "기타");
}

#[test]
fn every_key_round_trips() {
    for k in CategoryKey::all() {
        assert_eq!(CategoryKey::from_key(k.as_str()), k);
    }
}

#[test]
fn unknown_key_falls_back_to_other() {
    assert_eq!(CategoryKey::from_key("sunsets"), CategoryKey::Other);
    assert_eq!(CategoryKey::from_key(""), CategoryKey::Other);
}

#[test]
fn canonical_order_is_fixed() {
    let all = CategoryKey::all();
    assert_eq!(all.len(), 8);
    assert_eq!(all[0], CategoryKey::ScreenshotDocument);
    assert_eq!(all[7], CategoryKey::Other);
    for (i, k) in all.iter().enumerate() {
        assert_eq!(k.index(), i);
        assert_eq!(CategoryKey::from_index(i), *k);
    }
}

#[test]
fn export_status_round_trips() {
    for s in [ExportStatus::Pending, ExportStatus::Success, ExportStatus::Error] {
        assert_eq!(str_to_export_status(export_status_to_str(&s)), s);
    }
}

#[test]
fn unknown_export_status_reads_as_error() {
    assert_eq!(str_to_export_status("what"), ExportStatus::Error);
}
