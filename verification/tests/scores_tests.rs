use photosort::category::CategoryKey;
use photosort::scores::{Scores, SCORE_SCALE};

fn scores_of(vals: [u64; 8]) -> Scores {
    Scores {
        screenshot_document: vals[0],
        people: vals[1],
        food_cafe: vals[2],
        nature_landscape: vals[3],
        city_street_travel: vals[4],
        pets_animals: vals[5],
        products_objects: vals[6],
        other: vals[7],
    }
}

fn sum_of(s: &Scores) -> u64 {
    s.screenshot_document + s.people + s.food_cafe + s.nature_landscape + s.city_street_travel
        + s.pets_animals + s.products_objects + s.other
}

#[test]
fn normalize_two_equal_values() {
    let s = scores_of([7, 7, 0, 0, 0, 0, 0, 0]).normalize();
    assert_eq!(s.screenshot_document, SCORE_SCALE / 2);
    assert_eq!(s.people, SCORE_SCALE / 2);
    assert_eq!(s.food_cafe, 0);
    assert_eq!(sum_of(&s), SCORE_SCALE);
}

#[test]
fn normalize_sums_to_whole_within_tolerance() {
    let s = scores_of([1, 2, 3, 4, 5, 6, 7, 8]).normalize();
    let total = sum_of(&s);
    assert!(total <= SCORE_SCALE);
    assert!(total > SCORE_SCALE - 8);
}

#[test]
fn normalize_zero_total_leaves_values() {
    let s = scores_of([0, 0, 0, 0, 0, 0, 0, 0]).normalize();
    assert_eq!(sum_of(&s), 0);
}

#[test]
fn normalize_already_normalized_is_identity() {
    let s = scores_of([250000, 250000, 250000, 250000, 0, 0, 0, 0]).normalize();
    assert_eq!(s, scores_of([250000, 250000, 250000, 250000, 0, 0, 0, 0]));
}

#[test]
fn top_picks_maximum() {
    let s = scores_of([1, 2, 9, 3, 4, 5, 6, 7]);
    let (cat, val) = s.top();
    assert!(matches!(cat, CategoryKey::FoodCafe));
    assert_eq!(val, 9);
}

#[test]
fn top_tie_goes_to_first_in_canonical_order() {
    let s = scores_of([3, 9, 9, 9, 1, 1, 1, 1]);
    let (cat, val) = s.top();
    assert!(matches!(cat, CategoryKey::People));
    assert_eq!(val, 9);
}

#[test]
fn top_all_zero_gives_first_category() {
    let s = scores_of([0, 0, 0, 0, 0, 0, 0, 0]);
    let (cat, val) = s.top();
    assert!(matches!(cat, CategoryKey::ScreenshotDocument));
    assert_eq!(val, 0);
}

#[test]
fn map_round_trip_reproduces_normalized_scores() {
    let s = scores_of([125000, 125000, 125000, 125000, 125000, 125000, 125000, 125000]);
    let map = s.to_map();
    assert_eq!(map.len(), 8);
    let back = Scores::from_map(&map);
    assert_eq!(back, s);
}

#[test]
fn map_round_trip_stays_within_tolerance() {
    let s = scores_of([1, 2, 3, 4, 5, 6, 7, 8]).normalize();
    let back = Scores::from_map(&s.to_map());
    let pairs = [
        (back.screenshot_document, s.screenshot_document),
        (back.people, s.people),
        (back.food_cafe, s.food_cafe),
        (back.nature_landscape, s.nature_landscape),
        (back.city_street_travel, s.city_street_travel),
        (back.pets_animals, s.pets_animals),
        (back.products_objects, s.products_objects),
        (back.other, s.other),
    ];
    for (b, a) in pairs {
        assert!(b >= a);
        assert!(b <= a + 7);
    }
}

#[test]
fn from_map_ignores_unknown_keys_and_normalizes() {
    let entries = vec![
        ("people".to_string(), 1u64),
        ("mystery".to_string(), 100u64),
        ("other".to_string(), 1u64),
    ];
    let s = Scores::from_map(&entries);
    assert_eq!(s.people, SCORE_SCALE / 2);
    assert_eq!(s.other, SCORE_SCALE / 2);
    assert_eq!(s.screenshot_document, 0);
}

#[test]
fn from_map_last_entry_wins() {
    let entries = vec![
        ("people".to_string(), 10u64),
        ("people".to_string(), 3u64),
        ("other".to_string(), 3u64),
    ];
    let s = Scores::from_map(&entries);
    assert_eq!(s.people, SCORE_SCALE / 2);
    assert_eq!(s.other, SCORE_SCALE / 2);
}

#[test]
fn from_map_empty_gives_zero() {
    let entries: Vec<(String, u64)> = Vec::new();
    let s = Scores::from_map(&entries);
    assert_eq!(sum_of(&s), 0);
}
