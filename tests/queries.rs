use gema_launcher::queries::{search_pattern, search_sql, upsert_plan, SearchFields, UpsertPlan};

#[test]
fn search_over_chosen_columns() {
    let f = SearchFields { index: true, titel: false, kuenstler: true, label_code: false };
    assert_eq!(
        search_sql(f).unwrap(),
        "SELECT \"index\", titel, kuenstler, labelcode FROM my_table WHERE LOWER(\"index\") LIKE LOWER(?1) OR LOWER(kuenstler) LIKE LOWER(?1) LIMIT 100"
    );
    let one = SearchFields { index: false, titel: false, kuenstler: false, label_code: true };
    assert_eq!(
        search_sql(one).unwrap(),
        "SELECT \"index\", titel, kuenstler, labelcode FROM my_table WHERE LOWER(labelcode) LIKE LOWER(?1) LIMIT 100"
    );
}

#[test]
fn search_without_columns_is_none() {
    let f = SearchFields { index: false, titel: false, kuenstler: false, label_code: false };
    assert_eq!(search_sql(f), None);
}

#[test]
fn search_pattern_lowers_and_wraps() {
    assert_eq!(search_pattern("AbC"), Some("%abc%".to_string()));
    assert_eq!(search_pattern(""), None);
}

#[test]
fn upsert_choice() {
    assert_eq!(upsert_plan("", 3), UpsertPlan::Rejected);
    assert_eq!(upsert_plan("anw_1", 1), UpsertPlan::Update);
    assert_eq!(upsert_plan("anw_1", 0), UpsertPlan::Insert);
}
