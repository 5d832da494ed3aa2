//! The persistence adapter: the on-disk document format of a ledger —
//! a pretty-printed JSON array of entry objects — with a verified
//! serializer, a verified parser, and the load modes built on them.
//!
//! The canonical document is produced by `save_all`; `parse_ledger`
//! accepts exactly the canonical documents, and parsing what was
//! serialized returns the original ledger.

use vstd::prelude::*;

use crate::decimal::{
    all_digits, append_u64_digits, digit_to_char, digit_val, digits_end, is_digit, pad2, pad4,
    push_char, seq_value, spec_nat_digits,
};
use crate::models::{
    ledger_view, valid_ledger, Category, Date, ExpenseCategory, IncomeCategory, Item, ItemV,
    LedgerError,
};

verus! {

/// A name character as it stands in the document: quotes and backslashes
/// are escaped with a backslash, everything else is itself.
pub open spec fn esc_char(c: char) -> Seq<char> {
    if c == '"' || c == '\\' {
        seq!['\\', c]
    } else {
        seq![c]
    }
}

/// A whole name as it stands in the document.
pub open spec fn spec_esc(t: Seq<char>) -> Seq<char>
    decreases t.len(),
{
    if t.len() == 0 {
        Seq::empty()
    } else {
        esc_char(t[0]) + spec_esc(t.drop_first())
    }
}

/// The document form of a category: a one-field object tagged with the
/// side, whose value names the sub-kind.
pub open spec fn spec_cat_label(c: Category) -> Seq<char> {
    match c {
        Category::Income(IncomeCategory::Salary) => "{\"Income\": \"Salary\"}"@,
        Category::Income(IncomeCategory::Bonus) => "{\"Income\": \"Bonus\"}"@,
        Category::Income(IncomeCategory::Other) => "{\"Income\": \"Other\"}"@,
        Category::Expense(ExpenseCategory::Food) => "{\"Expense\": \"Food\"}"@,
        Category::Expense(ExpenseCategory::Hobby) => "{\"Expense\": \"Hobby\"}"@,
        Category::Expense(ExpenseCategory::Other) => "{\"Expense\": \"Other\"}"@,
    }
}

/// The document form of a date: fixed-width `YYYY-MM-DD`.
pub open spec fn spec_date10(d: Date) -> Seq<char> {
    pad4(d.year as int) + seq!['-'] + pad2(d.month as int) + seq!['-'] + pad2(d.day as int)
}

/// The document form of one entry.
pub open spec fn spec_item_label(e: ItemV) -> Seq<char> {
    "  {\n    \"name\": \""@ + spec_esc(e.name) + "\",\n    \"category\": "@ + spec_cat_label(
        e.category,
    ) + ",\n    \"price\": "@ + spec_nat_digits(e.price as nat) + ",\n    \"date\": \""@
        + spec_date10(e.date) + "\"\n  }"@
}

/// The entries of a non-empty ledger, separated by `,\n`.
pub open spec fn spec_items_body(l: Seq<ItemV>) -> Seq<char>
    decreases l.len(),
{
    if l.len() == 0 {
        Seq::empty()
    } else if l.len() == 1 {
        spec_item_label(l[0])
    } else {
        spec_item_label(l[0]) + ",\n"@ + spec_items_body(l.drop_first())
    }
}

/// The whole document form of a ledger.
pub open spec fn spec_serialize(l: Seq<ItemV>) -> Seq<char> {
    if l.len() == 0 {
        "[]\n"@
    } else {
        "[\n"@ + spec_items_body(l) + "\n]\n"@
    }
}

/// Appending an entry extends the body with a separator and its label.
proof fn lemma_body_snoc(l: Seq<ItemV>, e: ItemV)
    requires
        l.len() >= 1,
    ensures
        spec_items_body(l.push(e)) == spec_items_body(l) + ",\n"@ + spec_item_label(e),
    decreases l.len(),
{
    if l.len() == 1 {
        let lp = l.push(e);
        assert(lp.drop_first() =~= seq![e]);
        assert(lp[0] == l[0]);
        assert(spec_items_body(seq![e]) == spec_item_label(e));
    } else {
        lemma_body_snoc(l.drop_first(), e);
        let lp = l.push(e);
        assert(lp.drop_first() =~= l.drop_first().push(e));
        assert(lp[0] == l[0]);
    }
}

/// Escaping one more character appends its escaped form.
proof fn lemma_esc_snoc(t: Seq<char>, c: char)
    ensures
        spec_esc(t.push(c)) == spec_esc(t) + esc_char(c),
    decreases t.len(),
{
    if t.len() == 0 {
        let tp = t.push(c);
        assert(tp.len() == 1);
        assert(tp[0] == c);
        assert(tp.drop_first() == Seq::<char>::empty()) by {
            assert(tp.drop_first() =~= Seq::<char>::empty());
        }
        assert(spec_esc(tp) == esc_char(c) + spec_esc(Seq::<char>::empty()));
        assert(spec_esc(Seq::<char>::empty()) == Seq::<char>::empty());
        assert(spec_esc(t) == Seq::<char>::empty());
        assert(esc_char(c) + Seq::<char>::empty() =~= esc_char(c));
        assert(Seq::<char>::empty() + esc_char(c) =~= esc_char(c));
    } else {
        lemma_esc_snoc(t.drop_first(), c);
        let tp = t.push(c);
        assert(tp[0] == t[0]);
        assert(tp.drop_first() =~= t.drop_first().push(c));
        assert(spec_esc(tp) == esc_char(t[0]) + (spec_esc(t.drop_first()) + esc_char(c)));
        assert(esc_char(t[0]) + (spec_esc(t.drop_first()) + esc_char(c)) =~= (esc_char(t[0])
            + spec_esc(t.drop_first())) + esc_char(c));
    }
}

/// Appends a name in its escaped document form.
fn append_escaped(s: &mut String, name: &str)
    ensures
        final(s)@ == old(s)@ + spec_esc(name@),
{
    let n = name.unicode_len();
    let mut i: usize = 0;
    while i < n
        invariant
            0 <= i <= n,
            n == name@.len(),
            s@ == old(s)@ + spec_esc(name@.take(i as int)),
        decreases n - i,
    {
        let c = name.get_char(i);
        proof {
            lemma_esc_snoc(name@.take(i as int), c);
            assert(name@.take(i + 1) =~= name@.take(i as int).push(name@[i as int]));
        }
        if c == '"' || c == '\\' {
            push_char(s, '\\');
            push_char(s, c);
            proof {
                assert(s@ =~= old(s)@ + spec_esc(name@.take(i + 1)));
            }
        } else {
            push_char(s, c);
            proof {
                assert(s@ =~= old(s)@ + spec_esc(name@.take(i + 1)));
            }
        }
        i += 1;
    }
    proof {
        assert(name@.take(n as int) =~= name@);
    }
}

/// Appends the document form of a category.
fn append_category(s: &mut String, c: Category)
    ensures
        final(s)@ == old(s)@ + spec_cat_label(c),
{
    match c {
        Category::Income(IncomeCategory::Salary) => s.append("{\"Income\": \"Salary\"}"),
        Category::Income(IncomeCategory::Bonus) => s.append("{\"Income\": \"Bonus\"}"),
        Category::Income(IncomeCategory::Other) => s.append("{\"Income\": \"Other\"}"),
        Category::Expense(ExpenseCategory::Food) => s.append("{\"Expense\": \"Food\"}"),
        Category::Expense(ExpenseCategory::Hobby) => s.append("{\"Expense\": \"Hobby\"}"),
        Category::Expense(ExpenseCategory::Other) => s.append("{\"Expense\": \"Other\"}"),
    }
}

/// Appends a date as fixed-width `YYYY-MM-DD`.
fn append_date(s: &mut String, d: Date)
    requires
        d.valid(),
    ensures
        final(s)@ == old(s)@ + spec_date10(d),
{
    let y = d.year;
    push_char(s, digit_to_char((y / 1000) as u8));
    push_char(s, digit_to_char((y / 100 % 10) as u8));
    push_char(s, digit_to_char((y / 10 % 10) as u8));
    push_char(s, digit_to_char((y % 10) as u8));
    push_char(s, '-');
    let m = d.month;
    push_char(s, digit_to_char((m / 10) as u8));
    push_char(s, digit_to_char((m % 10) as u8));
    push_char(s, '-');
    let day = d.day;
    push_char(s, digit_to_char((day / 10) as u8));
    push_char(s, digit_to_char((day % 10) as u8));
    proof {
        assert(s@ =~= old(s)@ + spec_date10(d));
    }
}

/// Appends the document form of one entry.
fn append_item(s: &mut String, it: &Item)
    requires
        it@.date.valid(),
    ensures
        final(s)@ == old(s)@ + spec_item_label(it@),
{
    s.append("  {\n    \"name\": \"");
    append_escaped(s, it.get_name());
    s.append("\",\n    \"category\": ");
    append_category(s, it.category());
    s.append(",\n    \"price\": ");
    append_u64_digits(s, it.get_price() as u64);
    s.append(",\n    \"date\": \"");
    append_date(s, it.get_date());
    s.append("\"\n  }");
    proof {
        assert(s@ =~= old(s)@ + spec_item_label(it@));
    }
}

/// Serializes the full ledger as its pretty-printed document. This is
/// the write half of the persistence contract: the caller overwrites
/// the stored file with exactly this text.
pub fn save_all(data: &Vec<Item>) -> (r: String)
    requires
        valid_ledger(ledger_view(data@)),
    ensures
        r@ == spec_serialize(ledger_view(data@)),
{
    let ghost lvd = ledger_view(data@);
    if data.len() == 0 {
        return String::from_str("[]\n");
    }
    let mut s = String::from_str("[\n");
    let mut i: usize = 0;
    while i < data.len()
        invariant
            0 <= i <= data@.len(),
            data@.len() >= 1,
            lvd == ledger_view(data@),
            valid_ledger(lvd),
            i == 0 ==> s@ == "[\n"@,
            i >= 1 ==> s@ == "[\n"@ + spec_items_body(lvd.take(i as int)),
        decreases data@.len() - i,
    {
        if i > 0 {
            s.append(",\n");
        }
        append_item(&mut s, &data[i]);
        proof {
            assert(lvd[i as int] == data@[i as int]@);
            if i == 0 {
                assert(lvd.take(1)[0] == lvd[0]);
                assert(spec_items_body(lvd.take(1)) == spec_item_label(lvd[0]));
                assert(s@ =~= "[\n"@ + spec_items_body(lvd.take(1)));
            } else {
                lemma_body_snoc(lvd.take(i as int), lvd[i as int]);
                assert(lvd.take(i + 1) =~= lvd.take(i as int).push(lvd[i as int]));
                assert(s@ =~= "[\n"@ + spec_items_body(lvd.take(i + 1)));
            }
        }
        i += 1;
    }
    s.append("\n]\n");
    proof {
        assert(lvd.take(data@.len() as int) =~= lvd);
        assert(s@ =~= spec_serialize(lvd));
    }
    s
}

/// Consumes an exact literal: the position just past it, or nothing on a
/// mismatch.
pub open spec fn sp_lit(s: Seq<char>, i: int, lit: Seq<char>) -> Option<int> {
    if 0 <= i && i + lit.len() <= s.len() && s.subrange(i, i + lit.len()) == lit {
        Some(i + lit.len())
    } else {
        None
    }
}

/// Consumes an escaped name up to — not including — its closing quote.
pub open spec fn sp_name(s: Seq<char>, i: int) -> Option<(Seq<char>, int)>
    decreases s.len() - i,
    when 0 <= i <= s.len()
{
    if i == s.len() {
        None
    } else if s[i] == '"' {
        Some((Seq::empty(), i))
    } else if s[i] == '\\' {
        if i + 1 < s.len() && (s[i + 1] == '"' || s[i + 1] == '\\') {
            match sp_name(s, i + 2) {
                None => None,
                Some((t, j)) => Some((seq![s[i + 1]] + t, j)),
            }
        } else {
            None
        }
    } else {
        match sp_name(s, i + 1) {
            None => None,
            Some((t, j)) => Some((seq![s[i]] + t, j)),
        }
    }
}

/// Consumes a category object, trying each of the six labels.
pub open spec fn sp_cat(s: Seq<char>, i: int) -> Option<(Category, int)> {
    match sp_lit(s, i, "{\"Income\": \"Salary\"}"@) {
        Some(j) => Some((Category::Income(IncomeCategory::Salary), j)),
        None => match sp_lit(s, i, "{\"Income\": \"Bonus\"}"@) {
            Some(j) => Some((Category::Income(IncomeCategory::Bonus), j)),
            None => match sp_lit(s, i, "{\"Income\": \"Other\"}"@) {
                Some(j) => Some((Category::Income(IncomeCategory::Other), j)),
                None => match sp_lit(s, i, "{\"Expense\": \"Food\"}"@) {
                    Some(j) => Some((Category::Expense(ExpenseCategory::Food), j)),
                    None => match sp_lit(s, i, "{\"Expense\": \"Hobby\"}"@) {
                        Some(j) => Some((Category::Expense(ExpenseCategory::Hobby), j)),
                        None => match sp_lit(s, i, "{\"Expense\": \"Other\"}"@) {
                            Some(j) => Some((Category::Expense(ExpenseCategory::Other), j)),
                            None => None,
                        },
                    },
                },
            },
        },
    }
}

/// Consumes a price: a maximal run of digits, without leading zeros,
/// whose value fits the price type.
pub open spec fn sp_price(s: Seq<char>, i: int) -> Option<(u32, int)> {
    let j = digits_end(s, i);
    if j == i {
        None
    } else if s[i] == '0' && j > i + 1 {
        None
    } else {
        let v = seq_value(s.subrange(i, j));
        if v > 0xffff_ffff {
            None
        } else {
            Some((v as u32, j))
        }
    }
}

/// Consumes a fixed-width `YYYY-MM-DD` date, accepting only real
/// calendar days within the format's range.
pub open spec fn sp_date(s: Seq<char>, i: int) -> Option<(Date, int)> {
    if i < 0 || i + 10 > s.len() {
        None
    } else if !(is_digit(s[i]) && is_digit(s[i + 1]) && is_digit(s[i + 2]) && is_digit(s[i + 3])
        && s[i + 4] == '-' && is_digit(s[i + 5]) && is_digit(s[i + 6]) && s[i + 7] == '-'
        && is_digit(s[i + 8]) && is_digit(s[i + 9])) {
        None
    } else {
        let y = ((digit_val(s[i]) * 10 + digit_val(s[i + 1])) * 10 + digit_val(s[i + 2])) * 10
            + digit_val(s[i + 3]);
        let m = digit_val(s[i + 5]) * 10 + digit_val(s[i + 6]);
        let d = digit_val(s[i + 8]) * 10 + digit_val(s[i + 9]);
        let date = Date { year: y as i32, month: m as u32, day: d as u32 };
        if date.valid() {
            Some((date, i + 10))
        } else {
            None
        }
    }
}

/// Consumes one entry object.
pub open spec fn sp_item(s: Seq<char>, i: int) -> Option<(ItemV, int)> {
    match sp_lit(s, i, "  {\n    \"name\": \""@) {
        None => None,
        Some(j1) => match sp_name(s, j1) {
            None => None,
            Some((nm, j2)) => match sp_lit(s, j2, "\",\n    \"category\": "@) {
                None => None,
                Some(j3) => match sp_cat(s, j3) {
                    None => None,
                    Some((cat, j4)) => match sp_lit(s, j4, ",\n    \"price\": "@) {
                        None => None,
                        Some(j5) => match sp_price(s, j5) {
                            None => None,
                            Some((price, j6)) => match sp_lit(s, j6, ",\n    \"date\": \""@) {
                                None => None,
                                Some(j7) => match sp_date(s, j7) {
                                    None => None,
                                    Some((date, j8)) => match sp_lit(s, j8, "\"\n  }"@) {
                                        None => None,
                                        Some(j9) => Some(
                                            (ItemV { name: nm, category: cat, price, date }, j9),
                                        ),
                                    },
                                },
                            },
                        },
                    },
                },
            },
        },
    }
}

/// Consumes one or more entries separated by `,\n`, then the closing
/// `\n]\n`.
pub open spec fn sp_items(s: Seq<char>, i: int) -> Option<(Seq<ItemV>, int)>
    decreases s.len() - i,
    when 0 <= i <= s.len()
{
    match sp_item(s, i) {
        None => None,
        Some((e, j)) => match sp_lit(s, j, ",\n"@) {
            Some(j2) => if i < j2 <= s.len() {
                match sp_items(s, j2) {
                    None => None,
                    Some((rest, j3)) => Some((seq![e] + rest, j3)),
                }
            } else {
                None
            },
            None => match sp_lit(s, j, "\n]\n"@) {
                Some(j2) => Some((seq![e], j2)),
                None => None,
            },
        },
    }
}

/// The characters of a string, one by one.
fn str_to_chars(s: &str) -> (r: Vec<char>)
    ensures
        r@ == s@,
{
    let n = s.unicode_len();
    let mut v: Vec<char> = Vec::new();
    let mut i: usize = 0;
    while i < n
        invariant
            0 <= i <= n,
            n == s@.len(),
            v@ == s@.take(i as int),
        decreases n - i,
    {
        let c = s.get_char(i);
        v.push(c);
        proof {
            assert(v@ =~= s@.take(i + 1));
        }
        i += 1;
    }
    proof {
        assert(s@.take(n as int) =~= s@);
    }
    v
}

/// Consumes the exact literal at position `i`, as `sp_lit` does.
fn expect_lit(s: &Vec<char>, i: usize, lit: &str) -> (r: Option<usize>)
    requires
        i <= s@.len(),
    ensures
        match r {
            Some(j) => sp_lit(s@, i as int, lit@) == Some(j as int) && i <= j <= s@.len(),
            None => sp_lit(s@, i as int, lit@) is None,
        },
{
    let n = lit.unicode_len();
    let slen = s.len();
    if n > slen - i {
        return None;
    }
    let mut k: usize = 0;
    while k < n
        invariant
            0 <= k <= n,
            n == lit@.len(),
            slen == s@.len(),
            i + n <= slen,
            forall|m: int| 0 <= m < k ==> s@[i + m] == lit@[m],
        decreases n - k,
    {
        if s[i + k] != lit.get_char(k) {
            proof {
                assert(s@.subrange(i as int, i + n)[k as int] == s@[i + k]);
                assert(s@.subrange(i as int, i + n) != lit@);
            }
            return None;
        }
        k += 1;
    }
    proof {
        assert(s@.subrange(i as int, i + n) =~= lit@);
    }
    Some(i + n)
}

/// Consumes an escaped name up to its closing quote, as `sp_name` does.
fn parse_name(s: &Vec<char>, i: usize) -> (r: Option<(String, usize)>)
    requires
        i <= s@.len(),
    ensures
        match r {
            Some(nm_j) => sp_name(s@, i as int) == Some((nm_j.0@, nm_j.1 as int)) && i <= nm_j.1
                < s@.len(),
            None => sp_name(s@, i as int) is None,
        },
{
    let mut acc = String::new();
    let mut k: usize = i;
    loop
        invariant
            i <= k <= s@.len(),
            (match sp_name(s@, k as int) {
                Some(tj) => sp_name(s@, i as int) == Some((acc@ + tj.0, tj.1)),
                None => sp_name(s@, i as int) is None,
            }),
        decreases s@.len() - k,
    {
        if k >= s.len() {
            return None;
        }
        let c = s[k];
        if c == '"' {
            proof {
                assert(sp_name(s@, k as int) == Some((Seq::<char>::empty(), k as int)));
                assert(acc@ + Seq::<char>::empty() =~= acc@);
            }
            return Some((acc, k));
        } else if c == '\\' {
            if k + 1 < s.len() {
                let c2 = s[k + 1];
                if c2 == '"' || c2 == '\\' {
                    let ghost acc0 = acc@;
                    push_char(&mut acc, c2);
                    proof {
                        assert forall|t: Seq<char>| acc0 + (seq![c2] + t) == #[trigger] (acc@
                            + t) by {
                            assert(acc0 + (seq![c2] + t) =~= acc@ + t);
                        }
                    }
                    k = k + 2;
                } else {
                    return None;
                }
            } else {
                return None;
            }
        } else {
            let ghost acc0 = acc@;
            push_char(&mut acc, c);
            proof {
                assert forall|t: Seq<char>| acc0 + (seq![c] + t) == #[trigger] (acc@ + t) by {
                    assert(acc0 + (seq![c] + t) =~= acc@ + t);
                }
            }
            k = k + 1;
        }
    }
}

/// Consumes a category object, as `sp_cat` does.
fn parse_cat(s: &Vec<char>, i: usize) -> (r: Option<(Category, usize)>)
    requires
        i <= s@.len(),
    ensures
        match r {
            Some(cj) => sp_cat(s@, i as int) == Some((cj.0, cj.1 as int)) && i <= cj.1 <= s@.len(),
            None => sp_cat(s@, i as int) is None,
        },
{
    if let Some(j) = expect_lit(s, i, "{\"Income\": \"Salary\"}") {
        return Some((Category::Income(IncomeCategory::Salary), j));
    }
    if let Some(j) = expect_lit(s, i, "{\"Income\": \"Bonus\"}") {
        return Some((Category::Income(IncomeCategory::Bonus), j));
    }
    if let Some(j) = expect_lit(s, i, "{\"Income\": \"Other\"}") {
        return Some((Category::Income(IncomeCategory::Other), j));
    }
    if let Some(j) = expect_lit(s, i, "{\"Expense\": \"Food\"}") {
        return Some((Category::Expense(ExpenseCategory::Food), j));
    }
    if let Some(j) = expect_lit(s, i, "{\"Expense\": \"Hobby\"}") {
        return Some((Category::Expense(ExpenseCategory::Hobby), j));
    }
    if let Some(j) = expect_lit(s, i, "{\"Expense\": \"Other\"}") {
        return Some((Category::Expense(ExpenseCategory::Other), j));
    }
    None
}

/// Consumes a price, as `sp_price` does.
fn parse_price(s: &Vec<char>, i: usize) -> (r: Option<(u32, usize)>)
    requires
        i <= s@.len(),
    ensures
        match r {
            Some(vj) => sp_price(s@, i as int) == Some((vj.0, vj.1 as int)) && i < vj.1
                <= s@.len(),
            None => sp_price(s@, i as int) is None,
        },
{
    let mut j: usize = i;
    let mut done: bool = false;
    while !done
        invariant
            i <= j <= s@.len(),
            forall|m: int| i <= m < j ==> is_digit(#[trigger] s@[m]),
            digits_end(s@, i as int) == digits_end(s@, j as int),
            done ==> digits_end(s@, j as int) == j,
        decreases s@.len() - j + (if done {
            0int
        } else {
            1int
        }),
    {
        if j >= s.len() {
            done = true;
        } else {
            let d = crate::decimal::char_to_digit(s[j]);
            if d.is_some() {
                j += 1;
            } else {
                done = true;
            }
        }
    }
    proof {
        assert(digits_end(s@, i as int) == j);
    }
    if j == i {
        return None;
    }
    if s[i] == '0' && j > i + 1 {
        return None;
    }
    let ghost full = s@.subrange(i as int, j as int);
    proof {
        assert(all_digits(full)) by {
            assert(forall|m: int| 0 <= m < full.len() ==> full[m] == s@[i + m]);
        }
    }
    let mut v: u64 = 0;
    let mut k: usize = i;
    while k < j
        invariant
            i <= k <= j <= s@.len(),
            forall|m: int| i <= m < j ==> is_digit(#[trigger] s@[m]),
            full == s@.subrange(i as int, j as int),
            all_digits(full),
            digits_end(s@, i as int) == j as int,
            i < j,
            !(s@[i as int] == '0' && j > i + 1),
            v == seq_value(s@.subrange(i as int, k as int)),
            v <= 0xffff_ffff,
        decreases j - k,
    {
        let d = match crate::decimal::char_to_digit(s[k]) {
            Some(d) => d,
            None => {
                proof {
                    assert(is_digit(s@[k as int]));
                }
                return None;
            },
        };
        proof {
            assert(s@.subrange(i as int, k + 1).drop_last() =~= s@.subrange(i as int, k as int));
            assert(s@.subrange(i as int, k + 1).last() == s@[k as int]);
        }
        let v2: u64 = v * 10 + (d as u64);
        if v2 > 0xffff_ffff {
            proof {
                crate::decimal::lemma_seq_value_take(full, k + 1 - i);
                assert(full.take(k + 1 - i) =~= s@.subrange(i as int, k + 1));
                assert(seq_value(full) > 0xffff_ffff);
            }
            return None;
        }
        v = v2;
        k += 1;
    }
    proof {
        assert(s@.subrange(i as int, j as int) == full);
    }
    Some((v as u32, j))
}

/// Consumes a fixed-width date, as `sp_date` does.
fn parse_date(s: &Vec<char>, i: usize) -> (r: Option<(Date, usize)>)
    requires
        i <= s@.len(),
    ensures
        match r {
            Some(dj) => sp_date(s@, i as int) == Some((dj.0, dj.1 as int)) && i < dj.1 <= s@.len()
                && dj.0.valid(),
            None => sp_date(s@, i as int) is None,
        },
{
    if s.len() - i < 10 {
        return None;
    }
    let d0 = match crate::decimal::char_to_digit(s[i]) {
        Some(d) => d,
        None => {
            return None;
        },
    };
    let d1 = match crate::decimal::char_to_digit(s[i + 1]) {
        Some(d) => d,
        None => {
            return None;
        },
    };
    let d2 = match crate::decimal::char_to_digit(s[i + 2]) {
        Some(d) => d,
        None => {
            return None;
        },
    };
    let d3 = match crate::decimal::char_to_digit(s[i + 3]) {
        Some(d) => d,
        None => {
            return None;
        },
    };
    if s[i + 4] != '-' {
        return None;
    }
    let d5 = match crate::decimal::char_to_digit(s[i + 5]) {
        Some(d) => d,
        None => {
            return None;
        },
    };
    let d6 = match crate::decimal::char_to_digit(s[i + 6]) {
        Some(d) => d,
        None => {
            return None;
        },
    };
    if s[i + 7] != '-' {
        return None;
    }
    let d8 = match crate::decimal::char_to_digit(s[i + 8]) {
        Some(d) => d,
        None => {
            return None;
        },
    };
    let d9 = match crate::decimal::char_to_digit(s[i + 9]) {
        Some(d) => d,
        None => {
            return None;
        },
    };
    let y: u32 = ((d0 as u32 * 10 + d1 as u32) * 10 + d2 as u32) * 10 + d3 as u32;
    let m: u32 = d5 as u32 * 10 + d6 as u32;
    let day: u32 = d8 as u32 * 10 + d9 as u32;
    match Date::new(y as i32, m, day) {
        Some(d) => Some((d, i + 10)),
        None => None,
    }
}

/// What a document denotes: the ledger it is the canonical form of, or
/// nothing if it is not such a form. The whole input must be consumed.
pub open spec fn spec_parse(s: Seq<char>) -> Option<Seq<ItemV>> {
    match sp_lit(s, 0, "[]\n"@) {
        Some(j) => if j == s.len() {
            Some(Seq::empty())
        } else {
            None
        },
        None => match sp_lit(s, 0, "[\n"@) {
            None => None,
            Some(j) => match sp_items(s, j) {
                None => None,
                Some((l, j2)) => if j2 == s.len() {
                    Some(l)
                } else {
                    None
                },
            },
        },
    }
}

/// A mismatch at any index refutes a literal match.
proof fn lemma_sp_lit_mismatch(s: Seq<char>, i: int, lit: Seq<char>, k: int)
    requires
        0 <= i,
        0 <= k < lit.len(),
        i + lit.len() <= s.len() ==> s[i + k] != lit[k],
    ensures
        sp_lit(s, i, lit) is None,
{
    if i + lit.len() <= s.len() {
        assert(s.subrange(i, i + lit.len())[k] == s[i + k]);
        assert(s.subrange(i, i + lit.len()) != lit);
    }
}

/// A literal placed at its position is consumed.
proof fn lemma_sp_lit_of(pre: Seq<char>, lit: Seq<char>, suf: Seq<char>, s: Seq<char>)
    requires
        s == pre + lit + suf,
    ensures
        sp_lit(s, pre.len() as int, lit) == Some(pre.len() + lit.len() as int),
{
    let i = pre.len() as int;
    assert(s.subrange(i, i + lit.len()) =~= lit);
}

/// An escaped name placed at its position parses back to itself.
proof fn lemma_sp_name_of(t: Seq<char>, pre: Seq<char>, suf: Seq<char>, s: Seq<char>)
    requires
        s == pre + spec_esc(t) + suf,
        suf.len() >= 1,
        suf[0] == '"',
    ensures
        sp_name(s, pre.len() as int) == Some((t, pre.len() + spec_esc(t).len() as int)),
    decreases t.len(),
{
    let i = pre.len() as int;
    let e = spec_esc(t);
    if t.len() == 0 {
        assert(e == Seq::<char>::empty());
        assert(s[i] == suf[0]);
        assert(sp_name(s, i) == Some((Seq::<char>::empty(), i)));
        assert(Seq::<char>::empty() =~= t);
    } else {
        let t0 = t[0];
        let rest = t.drop_first();
        assert(e == esc_char(t0) + spec_esc(rest));
        if t0 == '"' || t0 == '\\' {
            assert(e.len() >= 2);
            assert(e[0] == '\\');
            assert(e[1] == t0);
            assert(s[i] == '\\');
            assert(s[i + 1] == t0);
            let pre2 = pre + seq!['\\', t0];
            assert(s =~= pre2 + spec_esc(rest) + suf);
            lemma_sp_name_of(rest, pre2, suf, s);
            assert(sp_name(s, i + 2) == Some((rest, i + 2 + spec_esc(rest).len())));
            assert(seq![s[i + 1]] + rest =~= t);
            assert(i + 2 + spec_esc(rest).len() == i + e.len());
        } else {
            assert(e[0] == t0);
            assert(s[i] == t0);
            let pre2 = pre + seq![t0];
            assert(s =~= pre2 + spec_esc(rest) + suf);
            lemma_sp_name_of(rest, pre2, suf, s);
            assert(sp_name(s, i + 1) == Some((rest, i + 1 + spec_esc(rest).len())));
            assert(seq![s[i]] + rest =~= t);
        }
    }
}

/// A category label placed at its position parses back to its category.
proof fn lemma_sp_cat_of(c: Category, pre: Seq<char>, suf: Seq<char>, s: Seq<char>)
    requires
        s == pre + spec_cat_label(c) + suf,
    ensures
        sp_cat(s, pre.len() as int) == Some((c, pre.len() + spec_cat_label(c).len() as int)),
{
    let i = pre.len() as int;
    let lab = spec_cat_label(c);
    let sal = "{\"Income\": \"Salary\"}"@;
    let bon = "{\"Income\": \"Bonus\"}"@;
    let iot = "{\"Income\": \"Other\"}"@;
    let foo = "{\"Expense\": \"Food\"}"@;
    let hob = "{\"Expense\": \"Hobby\"}"@;
    let eot = "{\"Expense\": \"Other\"}"@;
    reveal_strlit("{\"Income\": \"Salary\"}");
    reveal_strlit("{\"Income\": \"Bonus\"}");
    reveal_strlit("{\"Income\": \"Other\"}");
    reveal_strlit("{\"Expense\": \"Food\"}");
    reveal_strlit("{\"Expense\": \"Hobby\"}");
    reveal_strlit("{\"Expense\": \"Other\"}");
    lemma_sp_lit_of(pre, lab, suf, s);
    assert(forall|m: int| 0 <= m < lab.len() ==> s[i + m] == lab[m]);
    match c {
        Category::Income(IncomeCategory::Salary) => {
        },
        Category::Income(IncomeCategory::Bonus) => {
            lemma_sp_lit_mismatch(s, i, sal, 12);
        },
        Category::Income(IncomeCategory::Other) => {
            lemma_sp_lit_mismatch(s, i, sal, 12);
            lemma_sp_lit_mismatch(s, i, bon, 12);
        },
        Category::Expense(ExpenseCategory::Food) => {
            lemma_sp_lit_mismatch(s, i, sal, 2);
            lemma_sp_lit_mismatch(s, i, bon, 2);
            lemma_sp_lit_mismatch(s, i, iot, 2);
        },
        Category::Expense(ExpenseCategory::Hobby) => {
            lemma_sp_lit_mismatch(s, i, sal, 2);
            lemma_sp_lit_mismatch(s, i, bon, 2);
            lemma_sp_lit_mismatch(s, i, iot, 2);
            lemma_sp_lit_mismatch(s, i, foo, 13);
        },
        Category::Expense(ExpenseCategory::Other) => {
            lemma_sp_lit_mismatch(s, i, sal, 2);
            lemma_sp_lit_mismatch(s, i, bon, 2);
            lemma_sp_lit_mismatch(s, i, iot, 2);
            lemma_sp_lit_mismatch(s, i, foo, 13);
            lemma_sp_lit_mismatch(s, i, hob, 13);
        },
    }
}

/// A price's digits placed at their position, followed by a non-digit,
/// parse back to the price.
proof fn lemma_sp_price_of(n: u32, pre: Seq<char>, suf: Seq<char>, s: Seq<char>)
    requires
        s == pre + spec_nat_digits(n as nat) + suf,
        suf.len() >= 1,
        !is_digit(suf[0]),
    ensures
        sp_price(s, pre.len() as int) == Some(
            (n, pre.len() + spec_nat_digits(n as nat).len() as int),
        ),
{
    let i = pre.len() as int;
    let ds = spec_nat_digits(n as nat);
    let j = i + ds.len();
    crate::decimal::lemma_nat_digits_props(n as nat);
    assert(forall|m: int| i <= m < j ==> s[m] == ds[m - i]);
    assert(forall|m: int| i <= m < j ==> is_digit(#[trigger] s[m]));
    assert(s[j] == suf[0]);
    crate::decimal::lemma_digits_end_of(s, i, ds.len() as int);
    assert(digits_end(s, i) == j);
    assert(s.subrange(i, j) =~= ds);
    assert(seq_value(s.subrange(i, j)) == n);
    if n == 0 {
        assert(ds.len() == 1);
    } else {
        assert(s[i] == ds[0]);
        assert(ds[0] != '0');
    }
}

/// A date placed at its position parses back to itself.
proof fn lemma_sp_date_of(d: Date, pre: Seq<char>, suf: Seq<char>, s: Seq<char>)
    requires
        d.valid(),
        s == pre + spec_date10(d) + suf,
    ensures
        sp_date(s, pre.len() as int) == Some((d, pre.len() + 10int)),
{
    let i = pre.len() as int;
    let t = spec_date10(d);
    let y = d.year as int;
    let mo = d.month as int;
    let dy = d.day as int;
    crate::decimal::lemma_pad4_recompose(y);
    crate::decimal::lemma_pad2_recompose(mo);
    crate::decimal::lemma_pad2_recompose(dy);
    assert(t.len() == 10);
    assert(forall|m: int| i <= m < i + 10 ==> s[m] == t[m - i]);
    assert(t[0] == pad4(y)[0]);
    assert(t[1] == pad4(y)[1]);
    assert(t[2] == pad4(y)[2]);
    assert(t[3] == pad4(y)[3]);
    assert(t[4] == '-');
    assert(t[5] == pad2(mo)[0]);
    assert(t[6] == pad2(mo)[1]);
    assert(t[7] == '-');
    assert(t[8] == pad2(dy)[0]);
    assert(t[9] == pad2(dy)[1]);
    assert(((digit_val(s[i]) * 10 + digit_val(s[i + 1])) * 10 + digit_val(s[i + 2])) * 10
        + digit_val(s[i + 3]) == y);
    assert(digit_val(s[i + 5]) * 10 + digit_val(s[i + 6]) == mo);
    assert(digit_val(s[i + 8]) * 10 + digit_val(s[i + 9]) == dy);
    assert((Date { year: y as i32, month: mo as u32, day: dy as u32 }) == d);
}

/// An entry's label placed at its position parses back to the entry.
#[verifier::rlimit(100)]
proof fn lemma_sp_item_of(e: ItemV, pre: Seq<char>, suf: Seq<char>, s: Seq<char>)
    requires
        e.date.valid(),
        s == pre + spec_item_label(e) + suf,
    ensures
        sp_item(s, pre.len() as int) == Some((e, pre.len() + spec_item_label(e).len() as int)),
        spec_item_label(e).len() >= 1,
{
    let i = pre.len() as int;
    let l1 = "  {\n    \"name\": \""@;
    let lq2 = "\",\n    \"category\": "@;
    let l3 = ",\n    \"price\": "@;
    let l4 = ",\n    \"date\": \""@;
    let l5 = "\"\n  }"@;
    let en = spec_esc(e.name);
    let cl = spec_cat_label(e.category);
    let pd = spec_nat_digits(e.price as nat);
    let dd = spec_date10(e.date);
    reveal_strlit("  {\n    \"name\": \"");
    reveal_strlit("\",\n    \"category\": ");
    reveal_strlit(",\n    \"price\": ");
    reveal_strlit(",\n    \"date\": \"");
    reveal_strlit("\"\n  }");
    let lab = spec_item_label(e);
    let t8 = l5 + suf;
    let t7 = dd + t8;
    let t6 = l4 + t7;
    let t5 = pd + t6;
    let t4 = l3 + t5;
    let t3 = cl + t4;
    let t2 = lq2 + t3;
    let t1 = en + t2;
    // Re-associate s == pre + lab + suf into a right-nested spine.
    vstd::seq_lib::lemma_concat_associative(pre, lab, suf);
    assert(lab == l1 + en + lq2 + cl + l3 + pd + l4 + dd + l5);
    vstd::seq_lib::lemma_concat_associative(l1 + en + lq2 + cl + l3 + pd + l4 + dd, l5, suf);
    vstd::seq_lib::lemma_concat_associative(l1 + en + lq2 + cl + l3 + pd + l4, dd, t8);
    vstd::seq_lib::lemma_concat_associative(l1 + en + lq2 + cl + l3 + pd, l4, t7);
    vstd::seq_lib::lemma_concat_associative(l1 + en + lq2 + cl + l3, pd, t6);
    vstd::seq_lib::lemma_concat_associative(l1 + en + lq2 + cl, l3, t5);
    vstd::seq_lib::lemma_concat_associative(l1 + en + lq2, cl, t4);
    vstd::seq_lib::lemma_concat_associative(l1 + en, lq2, t3);
    vstd::seq_lib::lemma_concat_associative(l1, en, t2);
    assert(s == pre + (l1 + t1));
    vstd::seq_lib::lemma_concat_associative(pre, l1, t1);
    let p1 = pre + l1;
    lemma_sp_lit_of(pre, l1, t1, s);
    let i1 = i + l1.len();
    assert(sp_lit(s, i, l1) == Some(i1));
    assert(s == p1 + (en + t2));
    vstd::seq_lib::lemma_concat_associative(p1, en, t2);
    let p2 = p1 + en;
    assert(t2[0] == lq2[0]);
    assert(lq2[0] == '"');
    lemma_sp_name_of(e.name, p1, t2, s);
    let i2 = i1 + en.len();
    assert(sp_name(s, i1) == Some((e.name, i2)));
    assert(s == p2 + (lq2 + t3));
    vstd::seq_lib::lemma_concat_associative(p2, lq2, t3);
    let p3 = p2 + lq2;
    lemma_sp_lit_of(p2, lq2, t3, s);
    let i3 = i2 + lq2.len();
    assert(sp_lit(s, i2, lq2) == Some(i3));
    assert(s == p3 + (cl + t4));
    vstd::seq_lib::lemma_concat_associative(p3, cl, t4);
    let p4 = p3 + cl;
    lemma_sp_cat_of(e.category, p3, t4, s);
    let i4 = i3 + cl.len();
    assert(sp_cat(s, i3) == Some((e.category, i4)));
    assert(s == p4 + (l3 + t5));
    vstd::seq_lib::lemma_concat_associative(p4, l3, t5);
    let p5 = p4 + l3;
    lemma_sp_lit_of(p4, l3, t5, s);
    let i5 = i4 + l3.len();
    assert(sp_lit(s, i4, l3) == Some(i5));
    assert(s == p5 + (pd + t6));
    vstd::seq_lib::lemma_concat_associative(p5, pd, t6);
    let p6 = p5 + pd;
    assert(t6[0] == l4[0]);
    assert(!is_digit(l4[0]));
    lemma_sp_price_of(e.price, p5, t6, s);
    let i6 = i5 + pd.len();
    assert(sp_price(s, i5) == Some((e.price, i6)));
    assert(s == p6 + (l4 + t7));
    vstd::seq_lib::lemma_concat_associative(p6, l4, t7);
    let p7 = p6 + l4;
    lemma_sp_lit_of(p6, l4, t7, s);
    let i7 = i6 + l4.len();
    assert(sp_lit(s, i6, l4) == Some(i7));
    assert(s == p7 + (dd + t8));
    vstd::seq_lib::lemma_concat_associative(p7, dd, t8);
    let p8 = p7 + dd;
    lemma_sp_date_of(e.date, p7, t8, s);
    let i8 = i7 + dd.len();
    assert(dd.len() == 10);
    assert(sp_date(s, i7) == Some((e.date, i8)));
    assert(s == p8 + (l5 + suf));
    vstd::seq_lib::lemma_concat_associative(p8, l5, suf);
    lemma_sp_lit_of(p8, l5, suf, s);
    let i9 = i8 + l5.len();
    assert(sp_lit(s, i8, l5) == Some(i9));
    assert(e == (ItemV { name: e.name, category: e.category, price: e.price, date: e.date }));
    assert(sp_item(s, i) == Some((e, i9)));
    assert(i9 == i + lab.len());
}

/// A non-empty body placed at its position, closed by the bracket,
/// parses back to its entries, consuming the whole rest of the input.
#[verifier::rlimit(100)]
proof fn lemma_sp_items_of(l: Seq<ItemV>, pre: Seq<char>, s: Seq<char>)
    requires
        valid_ledger(l),
        l.len() >= 1,
        s == pre + spec_items_body(l) + "\n]\n"@,
    ensures
        sp_items(s, pre.len() as int) == Some((l, s.len() as int)),
    decreases l.len(),
{
    let i = pre.len() as int;
    let close = "\n]\n"@;
    let sep = ",\n"@;
    reveal_strlit("\n]\n");
    reveal_strlit(",\n");
    let e = l[0];
    assert(e.date.valid());
    let lab = spec_item_label(e);
    if l.len() == 1 {
        assert(spec_items_body(l) == lab);
        lemma_sp_item_of(e, pre, close, s);
        let j = i + lab.len();
        assert(sp_item(s, i) == Some((e, j)));
        assert(s.len() == j + 3);
        assert(s[j] == close[0]);
        assert(s[j] == '\n');
        lemma_sp_lit_mismatch(s, j, sep, 0);
        assert(s == (pre + lab) + close + Seq::<char>::empty()) by {
            assert(s =~= (pre + lab) + close + Seq::<char>::empty());
        }
        lemma_sp_lit_of(pre + lab, close, Seq::<char>::empty(), s);
        assert(sp_lit(s, j, close) == Some(j + 3));
        assert(seq![e] =~= l);
        assert(sp_items(s, i) == Some((seq![e], j + 3)));
    } else {
        let rest = l.drop_first();
        assert(valid_ledger(rest)) by {
            assert(forall|k: int| 0 <= k < rest.len() ==> rest[k] == l[k + 1]);
        }
        let body_rest = spec_items_body(rest);
        assert(spec_items_body(l) == lab + sep + body_rest);
        // Re-associate: s == pre + lab + (sep + (body_rest + close)).
        vstd::seq_lib::lemma_concat_associative(pre, lab + sep + body_rest, close);
        vstd::seq_lib::lemma_concat_associative(lab + sep, body_rest, close);
        vstd::seq_lib::lemma_concat_associative(lab, sep, body_rest + close);
        vstd::seq_lib::lemma_concat_associative(pre, lab, sep + (body_rest + close));
        let tail = sep + (body_rest + close);
        assert(s == pre + lab + tail);
        lemma_sp_item_of(e, pre, tail, s);
        let j = i + lab.len();
        assert(sp_item(s, i) == Some((e, j)));
        let p1 = pre + lab;
        assert(s == p1 + (sep + (body_rest + close)));
        vstd::seq_lib::lemma_concat_associative(p1, sep, body_rest + close);
        lemma_sp_lit_of(p1, sep, body_rest + close, s);
        assert(sp_lit(s, j, sep) == Some(j + 2));
        let pre2 = p1 + sep;
        assert(s == pre2 + (body_rest + close));
        vstd::seq_lib::lemma_concat_associative(pre2, body_rest, close);
        assert(s == pre2 + body_rest + close);
        lemma_sp_items_of(rest, pre2, s);
        assert(sp_items(s, j + 2) == Some((rest, s.len() as int)));
        assert(i < j + 2 <= s.len());
        assert(seq![e] + rest =~= l);
        assert(sp_items(s, i) == Some((l, s.len() as int)));
    }
}

/// Round trip: parsing the canonical document of any ledger returns the
/// ledger itself, the empty ledger included.
pub proof fn lemma_parse_of_serialize(l: Seq<ItemV>)
    requires
        valid_ledger(l),
    ensures
        spec_parse(spec_serialize(l)) == Some(l),
{
    let s = spec_serialize(l);
    reveal_strlit("[]\n");
    reveal_strlit("[\n");
    if l.len() == 0 {
        assert(s == "[]\n"@);
        assert(s =~= Seq::<char>::empty() + "[]\n"@ + Seq::<char>::empty());
        lemma_sp_lit_of(Seq::<char>::empty(), "[]\n"@, Seq::<char>::empty(), s);
        assert(sp_lit(s, 0, "[]\n"@) == Some(3int));
        assert(s.len() == 3);
        assert(Seq::<ItemV>::empty() =~= l);
    } else {
        let open = "[\n"@;
        let body = spec_items_body(l);
        assert(s == open + body + "\n]\n"@);
        assert(s.len() >= 3) by {
            reveal_strlit("\n]\n");
        }
        assert(s[1] == open[1]);
        assert(s[1] == '\n');
        lemma_sp_lit_mismatch(s, 0, "[]\n"@, 1);
        assert(s =~= Seq::<char>::empty() + open + (body + "\n]\n"@));
        lemma_sp_lit_of(Seq::<char>::empty(), open, body + "\n]\n"@, s);
        assert(sp_lit(s, 0, open) == Some(2int));
        let pre = s.subrange(0, 2);
        assert(s =~= pre + body + "\n]\n"@);
        lemma_sp_items_of(l, pre, s);
        assert(sp_items(s, 2int) == Some((l, s.len() as int)));
    }
}

/// Serialization is injective: two ledgers with the same document are
/// the same ledger.
pub proof fn lemma_serialize_injective(a: Seq<ItemV>, b: Seq<ItemV>)
    requires
        valid_ledger(a),
        valid_ledger(b),
        spec_serialize(a) == spec_serialize(b),
    ensures
        a == b,
{
    lemma_parse_of_serialize(a);
    lemma_parse_of_serialize(b);
}

/// Consumes one entry object, as `sp_item` does.
fn parse_item(s: &Vec<char>, i: usize) -> (r: Option<(Item, usize)>)
    requires
        i <= s@.len(),
    ensures
        match r {
            Some(ij) => sp_item(s@, i as int) == Some((ij.0@, ij.1 as int)) && i < ij.1 <= s@.len()
                && ij.0@.date.valid(),
            None => sp_item(s@, i as int) is None,
        },
{
    let j1 = match expect_lit(s, i, "  {\n    \"name\": \"") {
        Some(j) => j,
        None => {
            return None;
        },
    };
    let (nm, j2) = match parse_name(s, j1) {
        Some(x) => x,
        None => {
            return None;
        },
    };
    let j3 = match expect_lit(s, j2, "\",\n    \"category\": ") {
        Some(j) => j,
        None => {
            return None;
        },
    };
    let (cat, j4) = match parse_cat(s, j3) {
        Some(x) => x,
        None => {
            return None;
        },
    };
    let j5 = match expect_lit(s, j4, ",\n    \"price\": ") {
        Some(j) => j,
        None => {
            return None;
        },
    };
    let (price, j6) = match parse_price(s, j5) {
        Some(x) => x,
        None => {
            return None;
        },
    };
    let j7 = match expect_lit(s, j6, ",\n    \"date\": \"") {
        Some(j) => j,
        None => {
            return None;
        },
    };
    let (date, j8) = match parse_date(s, j7) {
        Some(x) => x,
        None => {
            return None;
        },
    };
    let j9 = match expect_lit(s, j8, "\"\n  }") {
        Some(j) => j,
        None => {
            return None;
        },
    };
    let it = Item::new(nm, cat, price, date);
    proof {
        reveal_strlit("  {\n    \"name\": \"");
        assert(j1 > i);
        assert(it@ == (ItemV { name: it@.name, category: cat, price, date }));
    }
    Some((it, j9))
}

/// Consumes the entries and the closing bracket, as `sp_items` does.
fn parse_items(s: &Vec<char>, i: usize) -> (r: Option<(Vec<Item>, usize)>)
    requires
        i <= s@.len(),
    ensures
        match r {
            Some(vj) => sp_items(s@, i as int) == Some((ledger_view(vj.0@), vj.1 as int)) && i
                <= vj.1 <= s@.len() && valid_ledger(ledger_view(vj.0@)),
            None => sp_items(s@, i as int) is None,
        },
{
    let mut acc: Vec<Item> = Vec::new();
    let mut k: usize = i;
    proof {
        assert(ledger_view(acc@) =~= Seq::<ItemV>::empty());
    }
    loop
        invariant
            i <= k <= s@.len(),
            valid_ledger(ledger_view(acc@)),
            (match sp_items(s@, k as int) {
                Some(tj) => sp_items(s@, i as int) == Some((ledger_view(acc@) + tj.0, tj.1)),
                None => sp_items(s@, i as int) is None,
            }),
        decreases s@.len() - k,
    {
        let (it, j) = match parse_item(s, k) {
            Some(x) => x,
            None => {
                return None;
            },
        };
        let ghost acc0 = ledger_view(acc@);
        acc.push(it);
        proof {
            assert(ledger_view(acc@) =~= acc0.push(it@));
            assert forall|t: Seq<ItemV>| acc0 + (seq![it@] + t) == #[trigger] (ledger_view(acc@)
                + t) by {
                assert(acc0 + (seq![it@] + t) =~= ledger_view(acc@) + t);
            }
        }
        match expect_lit(s, j, ",\n") {
            Some(j2) => {
                proof {
                    reveal_strlit(",\n");
                    assert(j2 == j + 2);
                    assert(k < j2 <= s@.len());
                }
                k = j2;
            },
            None => {
                match expect_lit(s, j, "\n]\n") {
                    Some(j2) => {
                        proof {
                            assert(acc0 + seq![it@] =~= ledger_view(acc@));
                            assert(sp_items(s@, k as int) == Some((seq![it@], j2 as int)));
                        }
                        return Some((acc, j2));
                    },
                    None => {
                        return None;
                    },
                }
            },
        }
    }
}

/// Parses a stored document back into a ledger. It succeeds exactly on
/// the canonical documents — those `spec_parse` accepts — and rejects
/// everything else with `DeserializationError`.
pub fn parse_ledger(s: &str) -> (r: Result<Vec<Item>, LedgerError>)
    ensures
        match r {
            Ok(v) => spec_parse(s@) == Some(ledger_view(v@)) && valid_ledger(ledger_view(v@)),
            Err(e) => e == LedgerError::DeserializationError && spec_parse(s@) is None,
        },
{
    let chars = str_to_chars(s);
    match expect_lit(&chars, 0, "[]\n") {
        Some(j) => {
            if j == chars.len() {
                let v: Vec<Item> = Vec::new();
                proof {
                    assert(ledger_view(v@) =~= Seq::<ItemV>::empty());
                }
                Ok(v)
            } else {
                Err(LedgerError::DeserializationError)
            }
        },
        None => {
            match expect_lit(&chars, 0, "[\n") {
                None => Err(LedgerError::DeserializationError),
                Some(j) => {
                    match parse_items(&chars, j) {
                        None => Err(LedgerError::DeserializationError),
                        Some((v, j2)) => {
                            if j2 == chars.len() {
                                Ok(v)
                            } else {
                                Err(LedgerError::DeserializationError)
                            }
                        },
                    }
                },
            }
        },
    }
}

/// Loads the ledger from the stored document, treating absence as an
/// empty ledger: absence is not an error, but present content that does
/// not parse is a `DeserializationError`.
pub fn load_or_create(content: Option<&str>) -> (r: Result<Vec<Item>, LedgerError>)
    ensures
        match content {
            None => r matches Ok(v) && v@.len() == 0,
            Some(s) => match r {
                Ok(v) => spec_parse(s@) == Some(ledger_view(v@)) && valid_ledger(ledger_view(v@)),
                Err(e) => e == LedgerError::DeserializationError && spec_parse(s@) is None,
            },
        },
{
    match content {
        None => Ok(Vec::new()),
        Some(s) => parse_ledger(s),
    }
}

/// Loads the ledger for the read-only summary path: absence is
/// `FileNotFound`, content that does not parse is
/// `DeserializationError`, and a parsed ledger with zero entries is
/// `EmptyLedger`; otherwise the non-empty ledger is returned.
pub fn load_or_fail(content: Option<&str>) -> (r: Result<Vec<Item>, LedgerError>)
    ensures
        match content {
            None => r == Err::<Vec<Item>, LedgerError>(LedgerError::FileNotFound),
            Some(s) => match r {
                Ok(v) => spec_parse(s@) == Some(ledger_view(v@)) && v@.len() != 0 && valid_ledger(
                    ledger_view(v@),
                ),
                Err(e) => if e == LedgerError::EmptyLedger {
                    spec_parse(s@) == Some(Seq::<ItemV>::empty())
                } else {
                    e == LedgerError::DeserializationError && spec_parse(s@) is None
                },
            },
        },
{
    match content {
        None => Err(LedgerError::FileNotFound),
        Some(s) => {
            let data = parse_ledger(s)?;
            if data.len() == 0 {
                proof {
                    assert(ledger_view(data@) =~= Seq::<ItemV>::empty());
                }
                Err(LedgerError::EmptyLedger)
            } else {
                Ok(data)
            }
        },
    }
}

} // verus!

