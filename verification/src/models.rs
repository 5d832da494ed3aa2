//! The ledger entry model: categories, calendar dates, entries and the
//! library's error kinds.

use vstd::prelude::*;

verus! {

/// The closed set of income sub-kinds.
#[derive(Clone, Copy, Debug, PartialEq, Eq, Structural)]
pub enum IncomeCategory {
    Salary,
    Bonus,
    Other,
}

/// The closed set of expense sub-kinds.
#[derive(Clone, Copy, Debug, PartialEq, Eq, Structural)]
pub enum ExpenseCategory {
    Food,
    Hobby,
    Other,
}

/// A tagged union: an entry is either income or expense, each with
/// exactly three sub-kinds.
#[derive(Clone, Copy, Debug, PartialEq, Eq, Structural)]
pub enum Category {
    Income(IncomeCategory),
    Expense(ExpenseCategory),
}

/// Every failure the library can report. All are invocation-fatal.
#[derive(Clone, Copy, Debug, PartialEq, Eq, Structural)]
pub enum LedgerError {
    /// A category kind outside {0, 1, 2} was supplied.
    InvalidCategory,
    /// The stored document does not match the expected ledger shape.
    DeserializationError,
    /// The ledger file was absent when the fail-fast load mode was used.
    FileNotFound,
    /// The ledger exists but holds zero entries where entries are required.
    EmptyLedger,
    /// The underlying storage write could not complete.
    WriteFailure,
}

impl LedgerError {
    /// A short human-readable description of the failure.
    pub fn message(&self) -> (r: &'static str)
        ensures
            r@ == match self {
                LedgerError::InvalidCategory => "invalid category kind"@,
                LedgerError::DeserializationError => "the stored ledger could not be deserialized"@,
                LedgerError::FileNotFound => "the ledger file could not be opened"@,
                LedgerError::EmptyLedger => "the ledger holds no entries"@,
                LedgerError::WriteFailure => "the ledger could not be written"@,
            },
    {
        match self {
            LedgerError::InvalidCategory => "invalid category kind",
            LedgerError::DeserializationError => "the stored ledger could not be deserialized",
            LedgerError::FileNotFound => "the ledger file could not be opened",
            LedgerError::EmptyLedger => "the ledger holds no entries",
            LedgerError::WriteFailure => "the ledger could not be written",
        }
    }
}

pub open spec fn spec_is_leap_year(y: int) -> bool {
    (y % 4 == 0 && y % 100 != 0) || y % 400 == 0
}

pub open spec fn spec_days_in_month(y: int, m: int) -> int {
    if m == 2 {
        if spec_is_leap_year(y) {
            29
        } else {
            28
        }
    } else if m == 4 || m == 6 || m == 9 || m == 11 {
        30
    } else {
        31
    }
}

/// A calendar date, held as plain year, month and day numbers.
#[derive(Clone, Copy, Debug, PartialEq, Eq, Structural)]
pub struct Date {
    pub year: i32,
    pub month: u32,
    pub day: u32,
}

impl Date {
    /// A valid calendar date within the range the on-disk format covers.
    pub open spec fn valid(self) -> bool {
        &&& 1 <= self.year <= 9999
        &&& 1 <= self.month <= 12
        &&& 1 <= self.day <= spec_days_in_month(self.year as int, self.month as int)
    }

    /// Builds a date, rejecting anything that is not a real calendar day.
    pub fn new(year: i32, month: u32, day: u32) -> (r: Option<Date>)
        ensures
            match r {
                Some(d) => d == (Date { year, month, day }) && d.valid(),
                None => !(Date { year, month, day }).valid(),
            },
    {
        if year < 1 || year > 9999 || month < 1 || month > 12 {
            return None;
        }
        let dim = days_in_month(year, month);
        if day < 1 || day > dim {
            return None;
        }
        Some(Date { year, month, day })
    }
}

pub fn is_leap_year(y: i32) -> (r: bool)
    requires
        y >= 1,
    ensures
        r == spec_is_leap_year(y as int),
{
    (y % 4 == 0 && y % 100 != 0) || y % 400 == 0
}

pub fn days_in_month(y: i32, m: u32) -> (r: u32)
    requires
        y >= 1,
        1 <= m <= 12,
    ensures
        r == spec_days_in_month(y as int, m as int),
{
    if m == 2 {
        if is_leap_year(y) {
            29
        } else {
            28
        }
    } else if m == 4 || m == 6 || m == 9 || m == 11 {
        30
    } else {
        31
    }
}

/// The mathematical model of one ledger entry.
pub struct ItemV {
    pub name: Seq<char>,
    pub category: Category,
    pub price: u32,
    pub date: Date,
}

/// One recorded transaction: a name, a category, a non-negative price
/// and the calendar date it happened on. Immutable after creation.
#[derive(Debug, PartialEq, Eq)]
pub struct Item {
    name: String,
    category: Category,
    price: u32,
    date: Date,
}

impl View for Item {
    type V = ItemV;

    closed spec fn view(&self) -> ItemV {
        ItemV { name: self.name@, category: self.category, price: self.price, date: self.date }
    }
}

impl Clone for Item {
    fn clone(&self) -> (r: Self)
        ensures
            r@ == self@,
    {
        Item {
            name: self.name.clone(),
            category: self.category,
            price: self.price,
            date: self.date,
        }
    }
}

/// The signed amount an entry contributes to every total: the price,
/// positive for income and negative for expense.
pub open spec fn spec_signed_amount(it: ItemV) -> int {
    match it.category {
        Category::Income(_) => it.price as int,
        Category::Expense(_) => -(it.price as int),
    }
}

/// The category variant selected by a register type (0 income, otherwise
/// expense) and a category kind in {0, 1, 2}.
pub open spec fn spec_category_of(register_type: u8, category_type: u8) -> Category {
    if register_type == 0 {
        if category_type == 0 {
            Category::Income(IncomeCategory::Salary)
        } else if category_type == 1 {
            Category::Income(IncomeCategory::Bonus)
        } else {
            Category::Income(IncomeCategory::Other)
        }
    } else {
        if category_type == 0 {
            Category::Expense(ExpenseCategory::Food)
        } else if category_type == 1 {
            Category::Expense(ExpenseCategory::Hobby)
        } else {
            Category::Expense(ExpenseCategory::Other)
        }
    }
}

impl Item {
    /// Builds an entry from already-validated parts.
    pub fn new(name: String, category: Category, price: u32, date: Date) -> (r: Item)
        requires
            date.valid(),
        ensures
            r@ == (ItemV { name: name@, category, price, date }),
    {
        Item { name, category, price, date }
    }

    /// Maps a register type and a category kind to a category.
    /// Any kind outside {0, 1, 2} is rejected with `InvalidCategory`,
    /// for either register type; kinds in {0, 1, 2} always succeed.
    pub fn get_category(register_type: u8, category_type: u8) -> (r: Result<
        Category,
        LedgerError,
    >)
        ensures
            category_type <= 2 ==> r == Ok::<Category, LedgerError>(
                spec_category_of(register_type, category_type),
            ),
            category_type > 2 ==> r == Err::<Category, LedgerError>(LedgerError::InvalidCategory),
    {
        if register_type == 0 {
            match category_type {
                0 => Ok(Category::Income(IncomeCategory::Salary)),
                1 => Ok(Category::Income(IncomeCategory::Bonus)),
                2 => Ok(Category::Income(IncomeCategory::Other)),
                _ => Err(LedgerError::InvalidCategory),
            }
        } else {
            match category_type {
                0 => Ok(Category::Expense(ExpenseCategory::Food)),
                1 => Ok(Category::Expense(ExpenseCategory::Hobby)),
                2 => Ok(Category::Expense(ExpenseCategory::Other)),
                _ => Err(LedgerError::InvalidCategory),
            }
        }
    }

    pub fn get_year(&self) -> (r: i32)
        ensures
            r == self@.date.year,
    {
        self.date.year
    }

    pub fn get_month(&self) -> (r: u32)
        ensures
            r == self@.date.month,
    {
        self.date.month
    }

    /// The first day of the entry's month: the grouping key for the
    /// by-period aggregation. Its day is always 1 and its year and month
    /// are the entry's own.
    pub fn get_first_day(&self) -> (r: Date)
        ensures
            r.day == 1,
            r.year == self@.date.year,
            r.month == self@.date.month,
            self@.date.valid() ==> r.valid(),
    {
        Date { year: self.date.year, month: self.date.month, day: 1 }
    }

    pub fn category(&self) -> (r: Category)
        ensures
            r == self@.category,
    {
        self.category
    }

    pub fn get_name(&self) -> (r: &str)
        ensures
            r@ == self@.name,
    {
        self.name.as_str()
    }

    pub fn get_date(&self) -> (r: Date)
        ensures
            r == self@.date,
    {
        self.date
    }

    pub fn get_price(&self) -> (r: u32)
        ensures
            r == self@.price,
    {
        self.price
    }

    /// The entry's signed amount: `+price` for income, `-price` for
    /// expense. Its magnitude always equals the price and its sign is
    /// determined solely by the category's side.
    pub fn get_price_for_summary(&self) -> (r: i64)
        ensures
            r == spec_signed_amount(self@),
            r == self@.price as i64 || r == -(self@.price as i64),
            self@.category matches Category::Income(_) ==> r >= 0,
            self@.category matches Category::Expense(_) ==> r <= 0,
    {
        match self.category {
            Category::Income(_) => self.price as i64,
            Category::Expense(_) => -(self.price as i64),
        }
    }
}

/// The model of a whole ledger: each entry's model, in order.
pub open spec fn ledger_view(s: Seq<Item>) -> Seq<ItemV> {
    Seq::new(s.len(), |i: int| s[i]@)
}

/// Every entry's date is a real calendar date.
pub open spec fn valid_ledger(s: Seq<ItemV>) -> bool {
    forall|i: int| 0 <= i < s.len() ==> (#[trigger] s[i]).date.valid()
}

} // verus!
