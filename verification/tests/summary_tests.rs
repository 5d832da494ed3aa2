use kakeibo_app::models::{Category, Date, ExpenseCategory, IncomeCategory, Item};
use kakeibo_app::statistics::{format_monthly_table, format_yearly_table, monthly_totals,
    yearly_totals};
use kakeibo_app::summarize::{format_date, format_price, format_table, get_filtered_data,
    get_target_dates, period_totals, summarize_data};

fn date(y: i32, m: u32, d: u32) -> Date {
    Date::new(y, m, d).unwrap()
}

fn get_test_data() -> Vec<Item> {
    vec![
        Item::new(
            "新年会".to_string(),
            Category::Expense(ExpenseCategory::Food),
            5000,
            date(2022, 1, 10),
        ),
        Item::new(
            "給料".to_string(),
            Category::Income(IncomeCategory::Salary),
            300000,
            date(2022, 1, 20),
        ),
        Item::new(
            "外食".to_string(),
            Category::Expense(ExpenseCategory::Food),
            3000,
            date(2022, 2, 15),
        ),
        Item::new(
            "歓迎会".to_string(),
            Category::Expense(ExpenseCategory::Other),
            10000,
            date(2022, 4, 15),
        ),
        Item::new(
            "旅行".to_string(),
            Category::Expense(ExpenseCategory::Hobby),
            100000,
            date(2022, 1, 30),
        ),
    ]
}

#[test]
fn test_get_target_dates() {
    let test_data = get_test_data();
    let expected = vec![date(2022, 1, 1), date(2022, 2, 1), date(2022, 4, 1)];
    assert_eq!(get_target_dates(&test_data), expected);
}

#[test]
fn test_get_filtered_data() {
    let test_data = get_test_data();
    let filter_date = date(2022, 1, 1);

    let result = get_filtered_data(&test_data, filter_date);
    assert_eq!(result.len(), 3);

    for item in result {
        assert_eq!(item.get_year(), 2022);
        assert_eq!(item.get_month(), 1);
    }
}

#[test]
fn test_get_filtered_data_empty() {
    let test_data = get_test_data();
    let filter_date = date(2023, 1, 1);

    let result = get_filtered_data(&test_data, filter_date);
    assert_eq!(result.len(), 0);
}

#[test]
fn test_summarize_data() {
    let test_data = get_test_data();
    let filter_date = date(2022, 1, 1);
    let filtered_data = get_filtered_data(&test_data, filter_date);

    let result = summarize_data(&filtered_data);
    assert_eq!(result, 195000);
}

#[test]
fn test_summarize_data_empty() {
    let empty_data: Vec<Item> = vec![];
    let result = summarize_data(&empty_data);
    assert_eq!(result, 0);
}

#[test]
fn test_period_totals_scenario() {
    let test_data = get_test_data();
    let result = period_totals(&test_data);
    let expected = vec![
        (date(2022, 1, 1), 195000i64),
        (date(2022, 2, 1), -3000i64),
        (date(2022, 4, 1), -10000i64),
    ];
    assert_eq!(result, expected);
}

#[test]
fn test_period_totals_empty() {
    let empty: Vec<Item> = vec![];
    assert_eq!(period_totals(&empty).len(), 0);
}

#[test]
fn test_period_totals_distinguishes_years() {
    let data = vec![
        Item::new(
            "a".to_string(),
            Category::Income(IncomeCategory::Salary),
            100,
            date(2022, 1, 5),
        ),
        Item::new(
            "b".to_string(),
            Category::Expense(ExpenseCategory::Food),
            30,
            date(2023, 1, 9),
        ),
    ];
    let result = period_totals(&data);
    let expected = vec![(date(2022, 1, 1), 100i64), (date(2023, 1, 1), -30i64)];
    assert_eq!(result, expected);
}

#[test]
fn test_monthly_totals_scenario() {
    let test_data = get_test_data();
    let result = monthly_totals(&test_data);
    let expected = vec![(1u32, 195000i64), (2u32, -3000i64), (4u32, -10000i64)];
    assert_eq!(result, expected);
}

#[test]
fn test_monthly_totals_merges_years() {
    let data = vec![
        Item::new(
            "a".to_string(),
            Category::Income(IncomeCategory::Salary),
            100,
            date(2022, 1, 5),
        ),
        Item::new(
            "b".to_string(),
            Category::Expense(ExpenseCategory::Food),
            30,
            date(2023, 1, 9),
        ),
        Item::new(
            "c".to_string(),
            Category::Income(IncomeCategory::Other),
            7,
            date(2024, 3, 2),
        ),
    ];
    let result = monthly_totals(&data);
    let expected = vec![(1u32, 70i64), (3u32, 7i64)];
    assert_eq!(result, expected);
}

#[test]
fn test_yearly_totals() {
    let data = vec![
        Item::new(
            "a".to_string(),
            Category::Income(IncomeCategory::Salary),
            100,
            date(2022, 1, 5),
        ),
        Item::new(
            "b".to_string(),
            Category::Expense(ExpenseCategory::Food),
            30,
            date(2023, 1, 9),
        ),
        Item::new(
            "c".to_string(),
            Category::Expense(ExpenseCategory::Hobby),
            40,
            date(2022, 7, 9),
        ),
    ];
    let result = yearly_totals(&data);
    let expected = vec![(2022i32, 60i64), (2023i32, -30i64)];
    assert_eq!(result, expected);
}

#[test]
fn test_format_date() {
    let result = format_date(date(2023, 5, 15));
    assert_eq!(result, "2023/5");
}

#[test]
fn test_format_date_no_zero_padding() {
    let result = format_date(date(5, 11, 2));
    assert_eq!(result, "5/11");
}

#[test]
fn test_format_price_positive() {
    let result = format_price(1000);
    assert_eq!(result, "+1000");
}

#[test]
fn test_format_price_negative() {
    let result = format_price(-1000);
    assert_eq!(result, "-1000");
}

#[test]
fn test_format_price_zero() {
    let result = format_price(0);
    assert_eq!(result, "0");
}

#[test]
fn test_print_table() {
    let table = vec![(date(2023, 1, 1), 1000i64), (date(2023, 2, 1), -500i64)];
    let rows = format_table(&table);
    assert_eq!(rows.len(), 2);
    assert_eq!(rows[0], "2023/1の収支は+1000円でした");
    assert_eq!(rows[1], "2023/2の収支は-500円でした");
}

#[test]
fn test_format_yearly_rows() {
    let table = vec![(2022i32, 195000i64), (2023i32, -30i64)];
    let rows = format_yearly_table(&table);
    assert_eq!(rows, vec!["2022年: 195000".to_string(), "2023年: -30".to_string()]);
}

#[test]
fn test_format_monthly_rows() {
    let table = vec![(1u32, 70i64), (3u32, 0i64)];
    let rows = format_monthly_table(&table);
    assert_eq!(rows, vec!["1月: 70".to_string(), "3月: 0".to_string()]);
}
