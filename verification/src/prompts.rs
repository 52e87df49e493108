//! The static prompt bank: natural-language prompts per category and for the
//! two value-judgment classes.  Versioned with the library, never extended at
//! runtime.

use vstd::prelude::*;
use crate::category::{CategoryKey, category_at};

verus! {

/// The three prompts describing one category.
pub open spec fn spec_prompts_for(k: CategoryKey) -> Seq<Seq<char>> {
    match k {
        CategoryKey::ScreenshotDocument => seq![
            "a screenshot of a document"@,
            "a screenshot with text and UI"@,
            "a photographed document or paper"@,
        ],
        CategoryKey::People => seq![
            "a photo of people"@,
            "a portrait of a person"@,
            "people in a social scene"@,
        ],
        CategoryKey::FoodCafe => seq![
            "a photo of food"@,
            "a cafe or restaurant scene"@,
            "a drink or dessert on a table"@,
        ],
        CategoryKey::NatureLandscape => seq![
            "a nature landscape photo"@,
            "mountains, forest, ocean, or sky"@,
            "a scenic outdoor view"@,
        ],
        CategoryKey::CityStreetTravel => seq![
            "a city street photo"@,
            "a travel landmark or tourist place"@,
            "buildings and urban scenery"@,
        ],
        CategoryKey::PetsAnimals => seq![
            "a photo of an animal"@,
            "a pet dog or cat"@,
            "wildlife or animals outdoors"@,
        ],
        CategoryKey::ProductsObjects => seq![
            "a photo of an object or product"@,
            "an item on a table"@,
            "a close-up of a thing"@,
        ],
        CategoryKey::Other => seq![
            "a miscellaneous photo"@,
            "an abstract or unclear scene"@,
            "something else"@,
        ],
    }
}

/// The prompts contrasted for "worth keeping".
pub open spec fn spec_value_keep_prompts() -> Seq<Seq<char>> {
    seq![
        "a valuable personal photo worth keeping"@,
        "a meaningful photo to keep in a personal album"@,
        "a high quality photo worth saving"@,
        "an important screenshot to keep"@,
    ]
}

/// The prompts contrasted for "not worth keeping".
pub open spec fn spec_value_drop_prompts() -> Seq<Seq<char>> {
    seq![
        "a low quality photo not worth keeping"@,
        "a blurry or accidental photo"@,
        "a duplicate or unimportant screenshot"@,
        "a meaningless image to delete"@,
    ]
}

/// The three prompts used to build one category's text prototype.
pub fn prompts_for(category: CategoryKey) -> (r: Vec<String>)
    ensures
        r@.len() == 3,
        forall|i: int| 0 <= i < 3 ==> (#[trigger] r@[i])@ == spec_prompts_for(category)[i],
{
    let mut v: Vec<String> = Vec::new();
    match category {
        CategoryKey::ScreenshotDocument => {
            v.push("a screenshot of a document".to_owned());
            v.push("a screenshot with text and UI".to_owned());
            v.push("a photographed document or paper".to_owned());
        }
        CategoryKey::People => {
            v.push("a photo of people".to_owned());
            v.push("a portrait of a person".to_owned());
            v.push("people in a social scene".to_owned());
        }
        CategoryKey::FoodCafe => {
            v.push("a photo of food".to_owned());
            v.push("a cafe or restaurant scene".to_owned());
            v.push("a drink or dessert on a table".to_owned());
        }
        CategoryKey::NatureLandscape => {
            v.push("a nature landscape photo".to_owned());
            v.push("mountains, forest, ocean, or sky".to_owned());
            v.push("a scenic outdoor view".to_owned());
        }
        CategoryKey::CityStreetTravel => {
            v.push("a city street photo".to_owned());
            v.push("a travel landmark or tourist place".to_owned());
            v.push("buildings and urban scenery".to_owned());
        }
        CategoryKey::PetsAnimals => {
            v.push("a photo of an animal".to_owned());
            v.push("a pet dog or cat".to_owned());
            v.push("wildlife or animals outdoors".to_owned());
        }
        CategoryKey::ProductsObjects => {
            v.push("a photo of an object or product".to_owned());
            v.push("an item on a table".to_owned());
            v.push("a close-up of a thing".to_owned());
        }
        CategoryKey::Other => {
            v.push("a miscellaneous photo".to_owned());
            v.push("an abstract or unclear scene".to_owned());
            v.push("something else".to_owned());
        }
    }
    v
}

/// Every category paired with its prompts, in canonical order.
pub fn all_category_prompts() -> (r: Vec<(CategoryKey, Vec<String>)>)
    ensures
        r@.len() == 8,
        forall|i: int| 0 <= i < 8 ==> (#[trigger] r@[i]).0 == category_at(i),
        forall|i: int, j: int|
            0 <= i < 8 && 0 <= j < 3 ==> (#[trigger] r@[i].1@[j])@ == spec_prompts_for(
                category_at(i),
            )[j],
        forall|i: int| 0 <= i < 8 ==> (#[trigger] r@[i]).1@.len() == 3,
{
    let keys = CategoryKey::all();
    let mut v: Vec<(CategoryKey, Vec<String>)> = Vec::new();
    let mut i: usize = 0;
    while i < 8
        invariant
            keys@.len() == 8,
            forall|k: int| 0 <= k < 8 ==> #[trigger] keys@[k] == category_at(k),
            i <= 8,
            v@.len() == i,
            forall|k: int| 0 <= k < i ==> (#[trigger] v@[k]).0 == category_at(k),
            forall|k: int| 0 <= k < i ==> (#[trigger] v@[k]).1@.len() == 3,
            forall|k: int, j: int|
                0 <= k < i && 0 <= j < 3 ==> (#[trigger] v@[k].1@[j])@ == spec_prompts_for(
                    category_at(k),
                )[j],
        decreases 8 - i,
    {
        let k = keys[i];
        v.push((k, prompts_for(k)));
        i += 1;
    }
    v
}

/// The flattened prompt batch used for one text-tower inference call: every
/// category's prompts in canonical order, three per category.
pub fn flatten_category_prompts() -> (r: Vec<(CategoryKey, String)>)
    ensures
        r@.len() == 24,
        forall|j: int|
            0 <= j < 24 ==> (#[trigger] r@[j]).0 == category_at(j / 3) && r@[j].1@
                == spec_prompts_for(category_at(j / 3))[j % 3],
{
    let groups = all_category_prompts();
    let mut v: Vec<(CategoryKey, String)> = Vec::new();
    let mut i: usize = 0;
    while i < 8
        invariant
            groups@.len() == 8,
            forall|k: int| 0 <= k < 8 ==> (#[trigger] groups@[k]).0 == category_at(k),
            forall|k: int| 0 <= k < 8 ==> (#[trigger] groups@[k]).1@.len() == 3,
            forall|k: int, j: int|
                0 <= k < 8 && 0 <= j < 3 ==> (#[trigger] groups@[k].1@[j])@ == spec_prompts_for(
                    category_at(k),
                )[j],
            i <= 8,
            v@.len() == 3 * i,
            forall|j: int|
                0 <= j < 3 * i ==> (#[trigger] v@[j]).0 == category_at(j / 3) && v@[j].1@
                    == spec_prompts_for(category_at(j / 3))[j % 3],
        decreases 8 - i,
    {
        let group = &groups[i];
        let k = group.0;
        let mut j: usize = 0;
        while j < 3
            invariant
                groups@.len() == 8,
                i < 8,
                k == category_at(i as int),
                (#[trigger] groups@[i as int]).1@.len() == 3,
                forall|k2: int, j2: int|
                    0 <= k2 < 8 && 0 <= j2 < 3 ==> (#[trigger] groups@[k2].1@[j2])@
                        == spec_prompts_for(category_at(k2))[j2],
                group == &groups@[i as int],
                j <= 3,
                v@.len() == 3 * i + j,
                forall|j2: int|
                    0 <= j2 < 3 * i + j ==> (#[trigger] v@[j2]).0 == category_at(j2 / 3)
                        && v@[j2].1@ == spec_prompts_for(category_at(j2 / 3))[j2 % 3],
            decreases 3 - j,
        {
            let p = group.1[j].clone();
            v.push((k, p));
            proof {
                assert((3 * i + j) / 3 == i && (3 * i + j) % 3 == j) by (nonlinear_arith)
                    requires 0 <= j < 3, 0 <= i;
            }
            j += 1;
        }
        i += 1;
    }
    v
}

/// The prompts whose prototype marks an image as worth keeping.
pub fn value_keep_prompts() -> (r: Vec<String>)
    ensures
        r@.len() == 4,
        forall|i: int| 0 <= i < 4 ==> (#[trigger] r@[i])@ == spec_value_keep_prompts()[i],
{
    let mut v: Vec<String> = Vec::new();
    v.push("a valuable personal photo worth keeping".to_owned());
    v.push("a meaningful photo to keep in a personal album".to_owned());
    v.push("a high quality photo worth saving".to_owned());
    v.push("an important screenshot to keep".to_owned());
    v
}

/// The prompts whose prototype marks an image as not worth keeping.
pub fn value_drop_prompts() -> (r: Vec<String>)
    ensures
        r@.len() == 4,
        forall|i: int| 0 <= i < 4 ==> (#[trigger] r@[i])@ == spec_value_drop_prompts()[i],
{
    let mut v: Vec<String> = Vec::new();
    v.push("a low quality photo not worth keeping".to_owned());
    v.push("a blurry or accidental photo".to_owned());
    v.push("a duplicate or unimportant screenshot".to_owned());
    v.push("a meaningless image to delete".to_owned());
    v
}

} // verus!
