use ds210::recipes::strings_from_data;

fn people_data() -> &'static str {
    "Alice: Fruit, Dairy\nbob: vegetables\nCarol: fruit, vegetables, dairy\n"
}

fn categories_data() -> &'static str {
    "Fruit: apple, banana , cherry\nVegetables: carrot, potato\nDairy: milk, cheese\n"
}

fn recipes_data() -> &'static str {
    "Recipe0: apple, banana, milk\nrecipe1: carrot, potato\nrecipe2: apple, carrot, steak, rice, beans\n"
}

#[test]
fn test_popular_recipes() {
    let result = strings_from_data(
        "popular recipes",
        "",
        people_data(),
        categories_data(),
        recipes_data(),
    );

    assert!(result.contains("Top 3 popular recipes:"));
}

#[test]
fn test_unknown_person() {
    let result = strings_from_data(
        "unknown_person",
        "recipe0",
        people_data(),
        categories_data(),
        recipes_data(),
    );

    assert_eq!(result.trim(), "Person 'unknown_person' not found.");
}

#[test]
fn unknown_recipe_is_reported() {
    let result = strings_from_data(
        "alice",
        "recipe9",
        people_data(),
        categories_data(),
        recipes_data(),
    );
    assert_eq!(result, "Recipe 'recipe9' not found.");
}

#[test]
fn mixed_case_person_likes_a_recipe() {
    // The data spells the person "Alice"; the query uses lower case, so
    // the lookup only succeeds because keys are lowercased on the way in.
    let result = strings_from_data(
        "alice",
        "recipe0",
        people_data(),
        categories_data(),
        recipes_data(),
    );
    assert_eq!(result, "alice likes the recipe 'recipe0'.");
}

#[test]
fn three_liked_of_five_misses_the_threshold() {
    // recipe2 has five ingredients and carol's categories cover only two;
    // the bar is ceil(0.6 * 5) = 3 liked ingredients.
    let result = strings_from_data(
        "carol",
        "recipe2",
        people_data(),
        categories_data(),
        recipes_data(),
    );
    assert_eq!(result, "carol does NOT like the recipe 'recipe2'.");
}

#[test]
fn popular_report_sorts_by_count_then_name() {
    // recipe0 (fruit and dairy) suits alice and carol; recipe1 suits bob
    // and carol; recipe2 suits nobody. Ties break on the recipe name.
    let result = strings_from_data(
        "popular recipes",
        "",
        people_data(),
        categories_data(),
        recipes_data(),
    );
    let expected = "Top 3 popular recipes:\n\
                    recipe0 (liked by 2 people)\n\
                    recipe1 (liked by 2 people)\n\
                    recipe2 (liked by 0 people)\n";
    assert_eq!(result, expected);
}

#[test]
fn ingredients_are_trimmed_before_matching() {
    // " banana " in the category line only matches the recipe's "banana"
    // because both sides are trimmed.
    let result = strings_from_data(
        "alice",
        "fruitbowl",
        "Alice: fruit\n",
        "Fruit: banana , apple\n",
        "Fruitbowl: banana, apple\n",
    );
    assert_eq!(result, "alice likes the recipe 'fruitbowl'.");
}
