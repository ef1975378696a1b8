//! The fixed category taxonomy: well-known menu categories with stable
//! numeric ids and display labels.
//!
//! Item id `0` is the (undisplayed) menu root; ids `1..=NUM_CATEGORIES` are
//! one per category, pre-allocated at startup; launcher items start at
//! `FIRST_ITEM_ID`.  A launcher's *effective category* is the first entry in
//! its category list, or `Uncategorized` when the list is empty.

use vstd::prelude::*;

verus! {

/// Number of categories, `Uncategorized` included; category ids are
/// `1..=NUM_CATEGORIES`.
pub const NUM_CATEGORIES: u64 = 11;

/// First item id available to the allocator: `0` (root) and the category
/// ids are reserved.
pub const FIRST_ITEM_ID: u64 = 12;

/// A well-known menu category.  Launcher files carry category tokens; the
/// first recognized token decides where an item is filed, and unrecognized
/// tokens are ignored, falling back to `Uncategorized`.
#[derive(Clone, Copy, Debug, PartialEq, Eq, Structural)]
pub enum Category {
    AudioVideo,
    Development,
    Education,
    Game,
    Graphics,
    Network,
    Office,
    Settings,
    System,
    Utility,
    Uncategorized,
}

/// The stable numeric id of a category, in `1..=NUM_CATEGORIES`.
pub open spec fn spec_category_idx(c: Category) -> u64 {
    match c {
        Category::AudioVideo => 1,
        Category::Development => 2,
        Category::Education => 3,
        Category::Game => 4,
        Category::Graphics => 5,
        Category::Network => 6,
        Category::Office => 7,
        Category::Settings => 8,
        Category::System => 9,
        Category::Utility => 10,
        Category::Uncategorized => 11,
    }
}

#[verifier::when_used_as_spec(spec_category_idx)]
pub fn category_idx(c: Category) -> (r: u64)
    ensures
        r == spec_category_idx(c),
        1 <= r <= NUM_CATEGORIES,
{
    match c {
        Category::AudioVideo => 1,
        Category::Development => 2,
        Category::Education => 3,
        Category::Game => 4,
        Category::Graphics => 5,
        Category::Network => 6,
        Category::Office => 7,
        Category::Settings => 8,
        Category::System => 9,
        Category::Utility => 10,
        Category::Uncategorized => 11,
    }
}

/// The display label of a category, as it appears in the menu.
pub open spec fn spec_category_label(c: Category) -> Seq<char> {
    match c {
        Category::AudioVideo => "Multimedia"@,
        Category::Development => "Development"@,
        Category::Education => "Education"@,
        Category::Game => "Games"@,
        Category::Graphics => "Graphics"@,
        Category::Network => "Internet"@,
        Category::Office => "Office"@,
        Category::Settings => "Settings"@,
        Category::System => "System"@,
        Category::Utility => "Accessories"@,
        Category::Uncategorized => "Other"@,
    }
}

pub fn category_string(c: Category) -> (r: &'static str)
    ensures
        r@ == spec_category_label(c),
{
    match c {
        Category::AudioVideo => "Multimedia",
        Category::Development => "Development",
        Category::Education => "Education",
        Category::Game => "Games",
        Category::Graphics => "Graphics",
        Category::Network => "Internet",
        Category::Office => "Office",
        Category::Settings => "Settings",
        Category::System => "System",
        Category::Utility => "Accessories",
        Category::Uncategorized => "Other",
    }
}

/// The category a desktop-file token names, if any.  Tokens are matched
/// exactly against the well-known category names of the desktop entry
/// specification.
pub open spec fn spec_category_of_token(t: Seq<char>) -> Option<Category> {
    if t == "AudioVideo"@ {
        Some(Category::AudioVideo)
    } else if t == "Development"@ {
        Some(Category::Development)
    } else if t == "Education"@ {
        Some(Category::Education)
    } else if t == "Game"@ {
        Some(Category::Game)
    } else if t == "Graphics"@ {
        Some(Category::Graphics)
    } else if t == "Network"@ {
        Some(Category::Network)
    } else if t == "Office"@ {
        Some(Category::Office)
    } else if t == "Settings"@ {
        Some(Category::Settings)
    } else if t == "System"@ {
        Some(Category::System)
    } else if t == "Utility"@ {
        Some(Category::Utility)
    } else {
        None
    }
}

pub fn category_of_token(t: &str) -> (r: Option<Category>)
    ensures
        r == spec_category_of_token(t@),
{
    if crate::strings::str_eq(t, "AudioVideo") {
        Some(Category::AudioVideo)
    } else if crate::strings::str_eq(t, "Development") {
        Some(Category::Development)
    } else if crate::strings::str_eq(t, "Education") {
        Some(Category::Education)
    } else if crate::strings::str_eq(t, "Game") {
        Some(Category::Game)
    } else if crate::strings::str_eq(t, "Graphics") {
        Some(Category::Graphics)
    } else if crate::strings::str_eq(t, "Network") {
        Some(Category::Network)
    } else if crate::strings::str_eq(t, "Office") {
        Some(Category::Office)
    } else if crate::strings::str_eq(t, "Settings") {
        Some(Category::Settings)
    } else if crate::strings::str_eq(t, "System") {
        Some(Category::System)
    } else if crate::strings::str_eq(t, "Utility") {
        Some(Category::Utility)
    } else {
        None
    }
}

/// The categories named by a list of tokens, unrecognized tokens dropped.
pub open spec fn spec_categories_of_tokens(ts: Seq<Seq<char>>) -> Seq<Category> {
    ts.filter(|t: Seq<char>| spec_category_of_token(t) is Some).map_values(
        |t: Seq<char>| spec_category_of_token(t)->Some_0,
    )
}

/// Converts desktop-file category tokens to known categories, in order,
/// ignoring tokens that match no known category.
pub fn category_str_convert(tokens: Vec<String>) -> (r: Vec<Category>)
    ensures
        r@ == spec_categories_of_tokens(tokens@.map_values(|s: String| s@)),
{
    let ghost toks = tokens@.map_values(|s: String| s@);
    let mut out: Vec<Category> = Vec::new();
    let mut i: usize = 0;
    proof {
        assert(toks.take(0int) =~= Seq::<Seq<char>>::empty());
        assert(spec_categories_of_tokens(toks.take(0int)) =~= Seq::<Category>::empty());
    }
    while i < tokens.len()
        invariant
            i <= tokens.len(),
            toks == tokens@.map_values(|s: String| s@),
            out@ == spec_categories_of_tokens(toks.take(i as int)),
        decreases tokens.len() - i,
    {
        proof {
            assert(toks.take(i + 1) =~= toks.take(i as int).push(toks[i as int]));
            reveal_with_fuel(Seq::filter, 2);
            assert(toks.take(i as int).push(toks[i as int]).drop_last() =~= toks.take(i as int));
        }
        match category_of_token(tokens[i].as_str()) {
            Some(c) => {
                out.push(c);
            },
            None => {},
        }
        proof {
            let f = |t: Seq<char>| spec_category_of_token(t) is Some;
            let g = |t: Seq<char>| spec_category_of_token(t)->Some_0;
            let pre = toks.take(i as int);
            assert(pre.push(toks[i as int]).filter(f) == if f(toks[i as int]) {
                pre.filter(f).push(toks[i as int])
            } else {
                pre.filter(f)
            });
            if f(toks[i as int]) {
                assert(pre.filter(f).push(toks[i as int]).map_values(g) =~= pre.filter(f)
                    .map_values(g)
                    .push(g(toks[i as int])));
            }
        }
        i = i + 1;
    }
    proof {
        assert(toks.take(tokens@.len() as int) =~= toks);
    }
    out
}

/// The effective category of a launcher: the first entry of its category
/// list, or `Uncategorized` when the list is empty.
pub open spec fn spec_effective_category(cats: Seq<Category>) -> Category {
    if cats.len() == 0 {
        Category::Uncategorized
    } else {
        cats[0]
    }
}

pub fn effective_category(cats: &Vec<Category>) -> (r: Category)
    ensures
        r == spec_effective_category(cats@),
{
    if cats.len() == 0 {
        Category::Uncategorized
    } else {
        cats[0]
    }
}

/// The category owning id `i`, for `i` in `1..=NUM_CATEGORIES`; the
/// inverse of `spec_category_idx`.
pub open spec fn spec_category_of_idx(i: int) -> Category {
    if i == 1 {
        Category::AudioVideo
    } else if i == 2 {
        Category::Development
    } else if i == 3 {
        Category::Education
    } else if i == 4 {
        Category::Game
    } else if i == 5 {
        Category::Graphics
    } else if i == 6 {
        Category::Network
    } else if i == 7 {
        Category::Office
    } else if i == 8 {
        Category::Settings
    } else if i == 9 {
        Category::System
    } else if i == 10 {
        Category::Utility
    } else {
        Category::Uncategorized
    }
}

/// Every category, in id order; used to pre-populate the menu at startup.
pub fn all_categories() -> (r: Vec<Category>)
    ensures
        r@.len() == NUM_CATEGORIES,
        forall|i: int| 0 <= i < r@.len() ==> spec_category_idx(#[trigger] r@[i]) == i + 1,
        forall|i: int| 0 <= i < r@.len() ==> #[trigger] r@[i] == spec_category_of_idx(i + 1),
{
    let out: Vec<Category> = vec![
        Category::AudioVideo,
        Category::Development,
        Category::Education,
        Category::Game,
        Category::Graphics,
        Category::Network,
        Category::Office,
        Category::Settings,
        Category::System,
        Category::Utility,
        Category::Uncategorized,
    ];
    out
}

} // verus!
