use kakeibo_app::models::{Category, Date, ExpenseCategory, IncomeCategory, Item, LedgerError};
use kakeibo_app::validate::InputValidator;

fn date(y: i32, m: u32, d: u32) -> Date {
    Date::new(y, m, d).unwrap()
}

fn get_test_data() -> Vec<Item> {
    vec![
        Item::new(
            "新年会".to_string(),
            Category::Expense(ExpenseCategory::Food),
            5000,
            date(2022, 1, 10),
        ),
        Item::new(
            "給料".to_string(),
            Category::Income(IncomeCategory::Salary),
            300000,
            date(2022, 1, 20),
        ),
        Item::new(
            "外食".to_string(),
            Category::Expense(ExpenseCategory::Food),
            3000,
            date(2022, 2, 15),
        ),
        Item::new(
            "歓迎会".to_string(),
            Category::Expense(ExpenseCategory::Other),
            10000,
            date(2022, 4, 15),
        ),
        Item::new(
            "旅行".to_string(),
            Category::Expense(ExpenseCategory::Hobby),
            100000,
            date(2022, 1, 30),
        ),
    ]
}

#[test]
fn test_main_function_structure() {
    assert!(true);
}

#[test]
fn test_service_type_validation() {
    assert!(InputValidator::validate_service_type(0));
    assert!(InputValidator::validate_service_type(1));
}

#[test]
fn test_get_category() {
    let result = Item::get_category(0, 0);
    let expected = Category::Income(IncomeCategory::Salary);
    assert_eq!(result, Ok(expected));

    let result = Item::get_category(0, 1);
    let expected = Category::Income(IncomeCategory::Bonus);
    assert_eq!(result, Ok(expected));

    let result = Item::get_category(0, 2);
    let expected = Category::Income(IncomeCategory::Other);
    assert_eq!(result, Ok(expected));

    let result = Item::get_category(1, 0);
    let expected = Category::Expense(ExpenseCategory::Food);
    assert_eq!(result, Ok(expected));

    let result = Item::get_category(1, 1);
    let expected = Category::Expense(ExpenseCategory::Hobby);
    assert_eq!(result, Ok(expected));

    let result = Item::get_category(1, 2);
    let expected = Category::Expense(ExpenseCategory::Other);
    assert_eq!(result, Ok(expected));
}

#[test]
fn test_get_category_invalid_kind() {
    assert_eq!(Item::get_category(0, 3), Err(LedgerError::InvalidCategory));
    assert_eq!(Item::get_category(1, 3), Err(LedgerError::InvalidCategory));
    assert_eq!(Item::get_category(0, 255), Err(LedgerError::InvalidCategory));
}

#[test]
fn test_get_year() {
    let test_data = get_test_data();
    let expected = vec![2022, 2022, 2022, 2022, 2022];
    let result: Vec<i32> = test_data.iter().map(|data| data.get_year()).collect();
    assert_eq!(result, expected);
}

#[test]
fn test_get_month() {
    let test_data = get_test_data();
    let expected = vec![1, 1, 2, 4, 1];
    let result: Vec<u32> = test_data.iter().map(|data| data.get_month()).collect();
    assert_eq!(result, expected);
}

#[test]
fn test_get_first_day() {
    let test_data = get_test_data();
    let expected = vec![
        date(2022, 1, 1),
        date(2022, 1, 1),
        date(2022, 2, 1),
        date(2022, 4, 1),
        date(2022, 1, 1),
    ];
    let result: Vec<Date> = test_data.iter().map(|data| data.get_first_day()).collect();
    assert_eq!(result, expected);
}

#[test]
fn test_get_price_for_summary() {
    let test_data = get_test_data();
    let expected: Vec<i64> = vec![-5000, 300000, -3000, -10000, -100000];
    let result: Vec<i64> = test_data
        .iter()
        .map(|data| data.get_price_for_summary())
        .collect();
    assert_eq!(result, expected);
}

#[test]
fn test_get_name() {
    let item = Item::new(
        "テスト商品".to_string(),
        Category::Income(IncomeCategory::Salary),
        1000,
        date(2023, 1, 1),
    );
    assert_eq!(item.get_name(), "テスト商品");
}

#[test]
fn test_signed_amount_magnitude_and_sign() {
    let income = Item::new(
        "income".to_string(),
        Category::Income(IncomeCategory::Bonus),
        4294967295,
        date(2022, 6, 1),
    );
    assert_eq!(income.get_price_for_summary(), 4294967295i64);
    let expense = Item::new(
        "expense".to_string(),
        Category::Expense(ExpenseCategory::Hobby),
        4294967295,
        date(2022, 6, 1),
    );
    assert_eq!(expense.get_price_for_summary(), -4294967295i64);
    let zero = Item::new(
        "zero".to_string(),
        Category::Expense(ExpenseCategory::Other),
        0,
        date(2022, 6, 1),
    );
    assert_eq!(zero.get_price_for_summary(), 0);
}

#[test]
fn test_date_new_validity() {
    assert!(Date::new(2024, 2, 29).is_some());
    assert!(Date::new(2023, 2, 29).is_none());
    assert!(Date::new(1900, 2, 29).is_none());
    assert!(Date::new(2000, 2, 29).is_some());
    assert!(Date::new(2022, 4, 31).is_none());
    assert!(Date::new(2022, 0, 1).is_none());
    assert!(Date::new(2022, 13, 1).is_none());
    assert!(Date::new(2022, 1, 0).is_none());
    assert!(Date::new(0, 1, 1).is_none());
    assert!(Date::new(10000, 1, 1).is_none());
    assert_eq!(
        Date::new(2022, 12, 31),
        Some(Date { year: 2022, month: 12, day: 31 })
    );
}

#[test]
fn test_error_messages() {
    assert_eq!(LedgerError::InvalidCategory.message(), "invalid category kind");
    assert_eq!(
        LedgerError::DeserializationError.message(),
        "the stored ledger could not be deserialized"
    );
    assert_eq!(LedgerError::FileNotFound.message(), "the ledger file could not be opened");
    assert_eq!(LedgerError::EmptyLedger.message(), "the ledger holds no entries");
    assert_eq!(LedgerError::WriteFailure.message(), "the ledger could not be written");
}

#[test]
fn test_input_register_type() {
    assert!(true);
}

#[test]
fn test_input_name() {
    let test_name = "テスト商品";
    assert_eq!(test_name, "テスト商品");
}

#[test]
fn test_input_category_type_income() {
    assert!(true);
}

#[test]
fn test_input_category_type_expense() {
    assert!(true);
}

#[test]
fn test_input_price() {
    let test_price = 1000;
    assert_eq!(test_price, 1000);
}

#[test]
fn test_run_function() {
    assert!(true);
}

#[test]
fn test_validate_service_type() {
    assert!(InputValidator::validate_service_type(0));
    assert!(InputValidator::validate_service_type(1));
    assert!(InputValidator::validate_service_type(2));
}

#[test]
fn test_validate_service_type_invalid() {
    assert!(!InputValidator::validate_service_type(3));
}

#[test]
fn test_validate_register_type() {
    assert!(InputValidator::validate_register_type(0));
    assert!(InputValidator::validate_register_type(1));
}

#[test]
fn test_validate_register_type_invalid() {
    assert!(!InputValidator::validate_register_type(2));
}

#[test]
fn test_validate_category_type() {
    assert!(InputValidator::validate_category_type(0, 0));
    assert!(InputValidator::validate_category_type(0, 1));
    assert!(InputValidator::validate_category_type(0, 2));
    assert!(InputValidator::validate_category_type(1, 0));
    assert!(InputValidator::validate_category_type(1, 1));
    assert!(InputValidator::validate_category_type(1, 2));
}

#[test]
fn test_validate_category_type_invalid() {
    assert!(!InputValidator::validate_category_type(0, 3));
    assert!(!InputValidator::validate_category_type(1, 3));
}

#[test]
fn test_register_entry_appends() {
    let mut ledger: Vec<Item> = Vec::new();
    let r = kakeibo_app::register::register_entry(
        &mut ledger,
        0,
        0,
        "給料".to_string(),
        300000,
        date(2022, 1, 20),
    );
    assert_eq!(r, Ok(()));
    assert_eq!(ledger.len(), 1);
    assert_eq!(ledger[0].get_name(), "給料");
    assert_eq!(ledger[0].get_price_for_summary(), 300000);
}

#[test]
fn test_register_entry_invalid_category() {
    let mut ledger: Vec<Item> = Vec::new();
    let r = kakeibo_app::register::register_entry(
        &mut ledger,
        1,
        3,
        "bad".to_string(),
        10,
        date(2022, 1, 20),
    );
    assert_eq!(r, Err(LedgerError::InvalidCategory));
    assert_eq!(ledger.len(), 0);
}
