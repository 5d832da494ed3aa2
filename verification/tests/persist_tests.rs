use kakeibo_app::models::{Category, Date, ExpenseCategory, IncomeCategory, Item, LedgerError};
use kakeibo_app::persist::{load_or_create, load_or_fail, parse_ledger, save_all};

fn date(y: i32, m: u32, d: u32) -> Date {
    Date::new(y, m, d).unwrap()
}

fn create_test_data() -> Vec<Item> {
    vec![Item::new(
        "テスト".to_string(),
        Category::Income(IncomeCategory::Salary),
        1000,
        date(2023, 1, 1),
    )]
}

#[test]
fn test_save_all_exact_document() {
    let data = create_test_data();
    let text = save_all(&data);
    let expected = "[\n  {\n    \"name\": \"テスト\",\n    \"category\": {\"Income\": \"Salary\"},\n    \"price\": 1000,\n    \"date\": \"2023-01-01\"\n  }\n]\n";
    assert_eq!(text, expected);
}

#[test]
fn test_save_all_empty_document() {
    let data: Vec<Item> = vec![];
    assert_eq!(save_all(&data), "[]\n");
}

#[test]
fn test_round_trip_empty() {
    let data: Vec<Item> = vec![];
    let text = save_all(&data);
    let parsed = parse_ledger(&text).unwrap();
    assert_eq!(parsed, data);
}

#[test]
fn test_round_trip_entries() {
    let data = vec![
        Item::new(
            "新年会".to_string(),
            Category::Expense(ExpenseCategory::Food),
            5000,
            date(2022, 1, 10),
        ),
        Item::new(
            "名前に \"引用\" と \\ を含む".to_string(),
            Category::Income(IncomeCategory::Bonus),
            4294967295,
            date(2024, 2, 29),
        ),
        Item::new(
            String::new(),
            Category::Expense(ExpenseCategory::Other),
            0,
            date(1, 12, 31),
        ),
    ];
    let text = save_all(&data);
    let parsed = parse_ledger(&text).unwrap();
    assert_eq!(parsed, data);
}

#[test]
fn test_read_data_or_create_new_data_new_file() {
    let result = load_or_create(None).unwrap();
    assert_eq!(result.len(), 0);
}

#[test]
fn test_load_or_create_existing() {
    let data = create_test_data();
    let text = save_all(&data);
    let result = load_or_create(Some(&text)).unwrap();
    assert_eq!(result.len(), 1);
    assert_eq!(result[0].get_name(), "テスト");
}

#[test]
fn test_load_or_create_malformed() {
    assert_eq!(
        load_or_create(Some("not a ledger")),
        Err(LedgerError::DeserializationError)
    );
    assert_eq!(load_or_create(Some("")), Err(LedgerError::DeserializationError));
    assert_eq!(load_or_create(Some("[]")), Err(LedgerError::DeserializationError));
}

#[test]
fn test_load_or_fail_missing() {
    assert_eq!(load_or_fail(None), Err(LedgerError::FileNotFound));
}

#[test]
fn test_load_or_fail_empty_ledger() {
    assert_eq!(load_or_fail(Some("[]\n")), Err(LedgerError::EmptyLedger));
}

#[test]
fn test_load_or_fail_non_empty() {
    let data = create_test_data();
    let text = save_all(&data);
    let result = load_or_fail(Some(&text)).unwrap();
    assert_eq!(result, data);
}

#[test]
fn test_parse_rejects_invalid_date() {
    let text = "[\n  {\n    \"name\": \"x\",\n    \"category\": {\"Income\": \"Salary\"},\n    \"price\": 1,\n    \"date\": \"2023-02-29\"\n  }\n]\n";
    assert_eq!(parse_ledger(text), Err(LedgerError::DeserializationError));
}

#[test]
fn test_parse_rejects_overflowing_price() {
    let text = "[\n  {\n    \"name\": \"x\",\n    \"category\": {\"Income\": \"Salary\"},\n    \"price\": 4294967296,\n    \"date\": \"2023-01-01\"\n  }\n]\n";
    assert_eq!(parse_ledger(text), Err(LedgerError::DeserializationError));
}

#[test]
fn test_parse_rejects_trailing_garbage() {
    let data = create_test_data();
    let mut text = save_all(&data);
    text.push(' ');
    assert_eq!(parse_ledger(&text), Err(LedgerError::DeserializationError));
}

#[test]
fn test_parse_all_categories() {
    let cats = vec![
        Category::Income(IncomeCategory::Salary),
        Category::Income(IncomeCategory::Bonus),
        Category::Income(IncomeCategory::Other),
        Category::Expense(ExpenseCategory::Food),
        Category::Expense(ExpenseCategory::Hobby),
        Category::Expense(ExpenseCategory::Other),
    ];
    let data: Vec<Item> = cats
        .into_iter()
        .enumerate()
        .map(|(i, c)| Item::new(format!("entry{}", i), c, 10 * i as u32, date(2022, 3, 14)))
        .collect();
    let text = save_all(&data);
    let parsed = parse_ledger(&text).unwrap();
    assert_eq!(parsed, data);
}

#[test]
fn test_read_data_or_create_new_data_existing_file() {
    let test_data = create_test_data();
    let stored = save_all(&test_data);

    let result = load_or_create(Some(&stored)).unwrap();
    assert_eq!(result.len(), 1);
    assert_eq!(result[0].get_name(), "テスト");
}

#[test]
fn test_read_date_or_panic_existing_file() {
    let test_data = create_test_data();
    let stored = save_all(&test_data);

    let result = load_or_fail(Some(&stored)).unwrap();
    assert_eq!(result.len(), 1);
    assert_eq!(result[0].get_name(), "テスト");
}

#[test]
fn test_write_to_json() {
    let test_data = create_test_data();
    let stored = save_all(&test_data);

    let result = load_or_create(Some(&stored)).unwrap();
    assert_eq!(result.len(), 1);
    assert_eq!(result[0].get_name(), "テスト");
}
