//! The closed taxonomy of photo categories: eight keys in a fixed canonical
//! order, each with a stable machine key and a localized export folder label.

use vstd::prelude::*;

verus! {

/// The eight photo categories, never extended at runtime.
#[derive(Clone, Copy, Debug, PartialEq, Eq, Structural, Hash)]
pub enum CategoryKey {
    ScreenshotDocument,
    People,
    FoodCafe,
    NatureLandscape,
    CityStreetTravel,
    PetsAnimals,
    ProductsObjects,
    Other,
}

/// Position of a category in the canonical enumeration order.
pub open spec fn category_index(k: CategoryKey) -> int {
    match k {
        CategoryKey::ScreenshotDocument => 0,
        CategoryKey::People => 1,
        CategoryKey::FoodCafe => 2,
        CategoryKey::NatureLandscape => 3,
        CategoryKey::CityStreetTravel => 4,
        CategoryKey::PetsAnimals => 5,
        CategoryKey::ProductsObjects => 6,
        CategoryKey::Other => 7,
    }
}

/// The category at a canonical position.
pub open spec fn category_at(i: int) -> CategoryKey {
    if i == 0 {
        CategoryKey::ScreenshotDocument
    } else if i == 1 {
        CategoryKey::People
    } else if i == 2 {
        CategoryKey::FoodCafe
    } else if i == 3 {
        CategoryKey::NatureLandscape
    } else if i == 4 {
        CategoryKey::CityStreetTravel
    } else if i == 5 {
        CategoryKey::PetsAnimals
    } else if i == 6 {
        CategoryKey::ProductsObjects
    } else {
        CategoryKey::Other
    }
}

/// The stable machine key of a category.
pub open spec fn spec_key_str(k: CategoryKey) -> Seq<char> {
    match k {
        CategoryKey::ScreenshotDocument => "screenshot_document"@,
        CategoryKey::People => "people"@,
        CategoryKey::FoodCafe => "food_cafe"@,
        CategoryKey::NatureLandscape => "nature_landscape"@,
        CategoryKey::CityStreetTravel => "city_street_travel"@,
        CategoryKey::PetsAnimals => "pets_animals"@,
        CategoryKey::ProductsObjects => "products_objects"@,
        CategoryKey::Other => "other"@,
    }
}

/// The localized export folder label of a category.
pub open spec fn spec_dir_name(k: CategoryKey) -> Seq<char> {
    match k {
        CategoryKey::ScreenshotDocument => "스크린샷_문서"@,
        CategoryKey::People => "사람"@,
        CategoryKey::FoodCafe => "음식_카페"@,
        CategoryKey::NatureLandscape => "자연_풍경"@,
        CategoryKey::CityStreetTravel => "도시_여행"@,
        CategoryKey::PetsAnimals => "동물"@,
        CategoryKey::ProductsObjects => "사물"@,
        CategoryKey::Other => "기타"@,
    }
}

/// The machine key a string maps back to: unknown keys fall into `Other`.
pub open spec fn spec_key_of_str(s: Seq<char>) -> CategoryKey {
    if s == spec_key_str(CategoryKey::ScreenshotDocument) {
        CategoryKey::ScreenshotDocument
    } else if s == spec_key_str(CategoryKey::People) {
        CategoryKey::People
    } else if s == spec_key_str(CategoryKey::FoodCafe) {
        CategoryKey::FoodCafe
    } else if s == spec_key_str(CategoryKey::NatureLandscape) {
        CategoryKey::NatureLandscape
    } else if s == spec_key_str(CategoryKey::CityStreetTravel) {
        CategoryKey::CityStreetTravel
    } else if s == spec_key_str(CategoryKey::PetsAnimals) {
        CategoryKey::PetsAnimals
    } else if s == spec_key_str(CategoryKey::ProductsObjects) {
        CategoryKey::ProductsObjects
    } else {
        CategoryKey::Other
    }
}

/// Character-by-character string equality, usable wherever vstd gives no
/// direct specification for `==` on `&str`.
pub fn str_eq(a: &str, b: &str) -> (r: bool)
    ensures
        r == (a@ == b@),
{
    let alen = a.unicode_len();
    let blen = b.unicode_len();
    if alen != blen {
        return false;
    }
    let mut i: usize = 0;
    while i < alen
        invariant
            alen == a@.len(),
            alen == b@.len(),
            i <= alen,
            forall|j: int| 0 <= j < i ==> a@[j] == b@[j],
        decreases alen - i,
    {
        if a.get_char(i) != b.get_char(i) {
            return false;
        }
        i += 1;
    }
    proof {
        assert(a@ =~= b@);
    }
    true
}

impl CategoryKey {
    /// The canonical order in which categories are always enumerated.
    pub fn all() -> (r: Vec<CategoryKey>)
        ensures
            r@.len() == 8,
            forall|i: int| 0 <= i < 8 ==> #[trigger] r@[i] == category_at(i),
    {
        let mut v: Vec<CategoryKey> = Vec::new();
        v.push(CategoryKey::ScreenshotDocument);
        v.push(CategoryKey::People);
        v.push(CategoryKey::FoodCafe);
        v.push(CategoryKey::NatureLandscape);
        v.push(CategoryKey::CityStreetTravel);
        v.push(CategoryKey::PetsAnimals);
        v.push(CategoryKey::ProductsObjects);
        v.push(CategoryKey::Other);
        v
    }

    /// The category at a canonical position.
    pub fn from_index(i: usize) -> (r: CategoryKey)
        requires
            i < 8,
        ensures
            r == category_at(i as int),
            category_index(r) == i as int,
    {
        if i == 0 {
            CategoryKey::ScreenshotDocument
        } else if i == 1 {
            CategoryKey::People
        } else if i == 2 {
            CategoryKey::FoodCafe
        } else if i == 3 {
            CategoryKey::NatureLandscape
        } else if i == 4 {
            CategoryKey::CityStreetTravel
        } else if i == 5 {
            CategoryKey::PetsAnimals
        } else if i == 6 {
            CategoryKey::ProductsObjects
        } else {
            CategoryKey::Other
        }
    }

    /// The canonical position of this category.
    pub fn index(&self) -> (r: usize)
        ensures
            r as int == category_index(*self),
    {
        match self {
            CategoryKey::ScreenshotDocument => 0,
            CategoryKey::People => 1,
            CategoryKey::FoodCafe => 2,
            CategoryKey::NatureLandscape => 3,
            CategoryKey::CityStreetTravel => 4,
            CategoryKey::PetsAnimals => 5,
            CategoryKey::ProductsObjects => 6,
            CategoryKey::Other => 7,
        }
    }

    /// The stable machine key, used in storage rows and score mappings.
    pub fn as_str(&self) -> (r: &'static str)
        ensures
            r@ == spec_key_str(*self),
    {
        match self {
            CategoryKey::ScreenshotDocument => "screenshot_document",
            CategoryKey::People => "people",
            CategoryKey::FoodCafe => "food_cafe",
            CategoryKey::NatureLandscape => "nature_landscape",
            CategoryKey::CityStreetTravel => "city_street_travel",
            CategoryKey::PetsAnimals => "pets_animals",
            CategoryKey::ProductsObjects => "products_objects",
            CategoryKey::Other => "other",
        }
    }

    /// The localized folder label used when exporting into category folders.
    pub fn dir_name_ko(&self) -> (r: &'static str)
        ensures
            r@ == spec_dir_name(*self),
    {
        match self {
            CategoryKey::ScreenshotDocument => "스크린샷_문서",
            CategoryKey::People => "사람",
            CategoryKey::FoodCafe => "음식_카페",
            CategoryKey::NatureLandscape => "자연_풍경",
            CategoryKey::CityStreetTravel => "도시_여행",
            CategoryKey::PetsAnimals => "동물",
            CategoryKey::ProductsObjects => "사물",
            CategoryKey::Other => "기타",
        }
    }

    /// Maps a machine key back to its category; unknown keys become `Other`.
    pub fn from_key(s: &str) -> (r: CategoryKey)
        ensures
            r == spec_key_of_str(s@),
    {
        if str_eq(s, "screenshot_document") {
            CategoryKey::ScreenshotDocument
        } else if str_eq(s, "people") {
            CategoryKey::People
        } else if str_eq(s, "food_cafe") {
            CategoryKey::FoodCafe
        } else if str_eq(s, "nature_landscape") {
            CategoryKey::NatureLandscape
        } else if str_eq(s, "city_street_travel") {
            CategoryKey::CityStreetTravel
        } else if str_eq(s, "pets_animals") {
            CategoryKey::PetsAnimals
        } else if str_eq(s, "products_objects") {
            CategoryKey::ProductsObjects
        } else {
            CategoryKey::Other
        }
    }
}

/// The category at a category's own canonical position is itself.
pub proof fn lemma_category_at_index(k: CategoryKey)
    ensures
        category_at(category_index(k)) == k,
{
}

/// Round trip: every category's machine key maps back to the same category.
pub proof fn lemma_key_str_round_trip(k: CategoryKey)
    ensures
        spec_key_of_str(spec_key_str(k)) == k,
{
    reveal_strlit("screenshot_document");
    reveal_strlit("people");
    reveal_strlit("food_cafe");
    reveal_strlit("nature_landscape");
    reveal_strlit("city_street_travel");
    reveal_strlit("pets_animals");
    reveal_strlit("products_objects");
    reveal_strlit("other");
    assert("screenshot_document"@.len() == 19);
    assert("people"@.len() == 6);
    assert("food_cafe"@.len() == 9);
    assert("nature_landscape"@.len() == 16);
    assert("city_street_travel"@.len() == 18);
    assert("pets_animals"@.len() == 12);
    assert("products_objects"@.len() == 16);
    assert("other"@.len() == 5);
    assert("nature_landscape"@[0] == 'n');
    assert("products_objects"@[0] == 'p');
    match k {
        CategoryKey::ScreenshotDocument => {
            assert(spec_key_of_str("screenshot_document"@) == k);
        }
        CategoryKey::People => {
            assert(spec_key_of_str("people"@) == k);
        }
        CategoryKey::FoodCafe => {
            assert(spec_key_of_str("food_cafe"@) == k);
        }
        CategoryKey::NatureLandscape => {
            assert(spec_key_of_str("nature_landscape"@) == k);
        }
        CategoryKey::CityStreetTravel => {
            assert(spec_key_of_str("city_street_travel"@) == k);
        }
        CategoryKey::PetsAnimals => {
            assert(spec_key_of_str("pets_animals"@) == k);
        }
        CategoryKey::ProductsObjects => {
            assert(spec_key_of_str("products_objects"@) == k);
        }
        CategoryKey::Other => {
            assert(spec_key_of_str("other"@) == k);
        }
    }
}

} // verus!
