//! The by-period aggregation: grouping entries by (year, month), summing
//! signed amounts, and rendering the summary rows.

use vstd::prelude::*;

use crate::decimal::{append_u64_digits, spec_nat_digits, u64_to_string};
use crate::models::{ledger_view, Date, Item, ItemV};

verus! {

/// The sum of the signed amounts of a sequence of entries.
pub open spec fn sum_signed(s: Seq<ItemV>) -> int
    decreases s.len(),
{
    if s.len() == 0 {
        0
    } else {
        sum_signed(s.drop_last()) + crate::models::spec_signed_amount(s.last())
    }
}

/// Whether an entry falls in the period (year, month).
pub open spec fn in_period(it: ItemV, y: int, m: int) -> bool {
    it.date.year == y && it.date.month == m
}

/// The subsequence of entries in the period (year, month), in order.
pub open spec fn filter_period(s: Seq<ItemV>, y: int, m: int) -> Seq<ItemV>
    decreases s.len(),
{
    if s.len() == 0 {
        Seq::empty()
    } else {
        filter_period(s.drop_last(), y, m) + if in_period(s.last(), y, m) {
            seq![s.last()]
        } else {
            Seq::empty()
        }
    }
}

/// The period total of (year, month): the signed sum over the entries
/// that fall in it.
pub open spec fn sum_in_period(s: Seq<ItemV>, y: int, m: int) -> int {
    sum_signed(filter_period(s, y, m))
}

/// The first-of-month key an entry is grouped under.
pub open spec fn first_day_of(it: ItemV) -> Date {
    Date { year: it.date.year, month: it.date.month, day: 1 }
}

/// Strict ordering of period keys: by year, then by month.
pub open spec fn spec_period_lt(a: Date, b: Date) -> bool {
    a.year < b.year || (a.year == b.year && a.month < b.month)
}

pub fn period_lt(a: Date, b: Date) -> (r: bool)
    ensures
        r == spec_period_lt(a, b),
{
    a.year < b.year || (a.year == b.year && a.month < b.month)
}

/// Whether some entry of `s` has `d` as its first-of-month key.
pub open spec fn period_present(s: Seq<ItemV>, d: Date) -> bool {
    exists|i: int| 0 <= i < s.len() && first_day_of(#[trigger] s[i]) == d
}

/// Whether `d` appears among the keys of a totals table.
pub open spec fn keys_contain(t: Seq<(Date, i64)>, d: Date) -> bool {
    exists|j: int| 0 <= j < t.len() && (#[trigger] t[j]).0 == d
}

/// The distinct first-of-month keys of the ledger, in ascending order.
pub fn get_target_dates(data: &Vec<Item>) -> (r: Vec<Date>)
    ensures
        forall|a: int, b: int| 0 <= a < b < r@.len() ==> spec_period_lt(r@[a], r@[b]),
        forall|j: int| 0 <= j < r@.len() ==> (#[trigger] r@[j]).day == 1,
        forall|j: int|
            0 <= j < r@.len() ==> period_present(ledger_view(data@), #[trigger] r@[j]),
        forall|i: int|
            0 <= i < data@.len() ==> r@.contains(first_day_of(#[trigger] data@[i]@)),
{
    let ghost lvd = ledger_view(data@);
    let mut r: Vec<Date> = Vec::new();
    let mut i: usize = 0;
    while i < data.len()
        invariant
            0 <= i <= data@.len(),
            lvd == ledger_view(data@),
            forall|a: int, b: int| 0 <= a < b < r@.len() ==> spec_period_lt(r@[a], r@[b]),
            forall|j: int| 0 <= j < r@.len() ==> (#[trigger] r@[j]).day == 1,
            forall|j: int|
                0 <= j < r@.len() ==> period_present(lvd.take(i as int), #[trigger] r@[j]),
            forall|k: int| 0 <= k < i ==> r@.contains(first_day_of(#[trigger] data@[k]@)),
        decreases data@.len() - i,
    {
        let ghost s_before = r@;
        let d = data[i].get_first_day();
        proof {
            assert(d == first_day_of(data@[i as int]@));
        }
        insert_period_key(&mut r, d);
        proof {
            let pre = lvd.take(i as int);
            let post = lvd.take(i + 1);
            assert forall|j: int| 0 <= j < r@.len() implies period_present(
                post,
                #[trigger] r@[j],
            ) by {
                let x = r@[j];
                assert(r@.contains(x));
                if s_before.contains(x) {
                    let jj = choose|jj: int| 0 <= jj < s_before.len() && s_before[jj] == x;
                    assert(period_present(pre, s_before[jj]));
                    let k = choose|k: int|
                        0 <= k < pre.len() && first_day_of(#[trigger] pre[k]) == x;
                    assert(post[k] == pre[k]);
                    assert(first_day_of(post[k]) == x);
                } else {
                    assert(x == d);
                    assert(post[i as int] == data@[i as int]@);
                    assert(first_day_of(post[i as int]) == x);
                }
            }
            assert forall|k: int| 0 <= k < i + 1 implies r@.contains(
                first_day_of(#[trigger] data@[k]@),
            ) by {
                if k < i {
                    assert(s_before.contains(first_day_of(data@[k]@)));
                } else {
                    assert(r@.contains(d));
                }
            }
        }
        i += 1;
    }
    proof {
        assert(lvd.take(data@.len() as int) =~= lvd);
    }
    r
}

/// Inserts a period key into a strictly ascending key list, keeping it
/// sorted and without duplicates.
fn insert_period_key(keys: &mut Vec<Date>, d: Date)
    requires
        forall|a: int, b: int|
            0 <= a < b < old(keys)@.len() ==> spec_period_lt(old(keys)@[a], old(keys)@[b]),
        forall|j: int| 0 <= j < old(keys)@.len() ==> (#[trigger] old(keys)@[j]).day == 1,
        d.day == 1,
    ensures
        forall|a: int, b: int|
            0 <= a < b < final(keys)@.len() ==> spec_period_lt(final(keys)@[a], final(keys)@[b]),
        forall|j: int| 0 <= j < final(keys)@.len() ==> (#[trigger] final(keys)@[j]).day == 1,
        forall|x: Date| final(keys)@.contains(x) <==> old(keys)@.contains(x) || x == d,
{
    let ghost s0 = keys@;
    let mut idx: usize = 0;
    while idx < keys.len() && period_lt(keys[idx], d)
        invariant
            0 <= idx <= keys@.len(),
            keys@ == s0,
            forall|a: int| 0 <= a < idx ==> spec_period_lt(keys@[a], d),
        decreases keys@.len() - idx,
    {
        idx += 1;
    }
    if idx < keys.len() {
        let k = keys[idx];
        if k.year == d.year && k.month == d.month {
            proof {
                assert(keys@[idx as int] == d);
                assert(keys@.contains(d));
            }
            return ;
        }
    }
    proof {
        if idx < s0.len() {
            assert(!spec_period_lt(s0[idx as int], d));
            assert(spec_period_lt(d, s0[idx as int]));
        }
    }
    keys.insert(idx, d);
    proof {
        let s1 = keys@;
        assert(s1 == s0.insert(idx as int, d));
        assert forall|a: int, b: int| 0 <= a < b < s1.len() implies spec_period_lt(
            s1[a],
            s1[b],
        ) by {
            if b < idx {
            } else if a > idx {
            } else if a == idx {
                assert(s1[a] == d);
                assert(s1[b] == s0[b - 1]);
                assert(spec_period_lt(d, s0[idx as int]));
                if b - 1 > idx {
                    assert(spec_period_lt(s0[idx as int], s0[b - 1]));
                }
            } else if b == idx {
                assert(s1[b] == d);
                assert(s1[a] == s0[a]);
                assert(spec_period_lt(s0[a], d));
            } else {
                assert(s1[a] == s0[a]);
                assert(s1[b] == s0[b - 1]);
                assert(a < b - 1);
                assert(spec_period_lt(s0[a], s0[b - 1]));
            }
        }
        assert forall|x: Date| s1.contains(x) <==> s0.contains(x) || x == d by {
            if s1.contains(x) {
                let j = choose|j: int| 0 <= j < s1.len() && s1[j] == x;
                if j < idx {
                    assert(s0[j] == x);
                } else if j == idx {
                } else {
                    assert(s0[j - 1] == x);
                }
            }
            if s0.contains(x) {
                let j = choose|j: int| 0 <= j < s0.len() && s0[j] == x;
                if j < idx {
                    assert(s1[j] == x);
                } else {
                    assert(s1[j + 1] == x);
                }
            }
            if x == d {
                assert(s1[idx as int] == x);
            }
        }
    }
}

/// The entries of the ledger that fall in the month of `filter_date`.
pub fn get_filtered_data(data: &Vec<Item>, filter_date: Date) -> (r: Vec<Item>)
    ensures
        ledger_view(r@) == filter_period(
            ledger_view(data@),
            filter_date.year as int,
            filter_date.month as int,
        ),
        r@.len() <= data@.len(),
{
    let ghost y = filter_date.year as int;
    let ghost m = filter_date.month as int;
    let ghost lvd = ledger_view(data@);
    let mut r: Vec<Item> = Vec::new();
    let mut i: usize = 0;
    while i < data.len()
        invariant
            0 <= i <= data@.len(),
            lvd == ledger_view(data@),
            y == filter_date.year as int,
            m == filter_date.month as int,
            r@.len() <= i,
            ledger_view(r@) == filter_period(lvd.take(i as int), y, m),
        decreases data@.len() - i,
    {
        let it = &data[i];
        proof {
            assert(lvd.take(i + 1).drop_last() =~= lvd.take(i as int));
            assert(lvd.take(i + 1).last() == data@[i as int]@);
        }
        if it.get_year() == filter_date.year && it.get_month() == filter_date.month {
            r.push(it.clone());
            proof {
                assert(ledger_view(r@) =~= filter_period(lvd.take(i + 1), y, m));
            }
        } else {
            proof {
                assert(ledger_view(r@) =~= filter_period(lvd.take(i + 1), y, m));
            }
        }
        i += 1;
    }
    proof {
        assert(lvd.take(data@.len() as int) =~= lvd);
    }
    r
}

/// No sum of signed amounts can exceed the entry count times the largest
/// price.
pub proof fn lemma_sum_signed_bound(s: Seq<ItemV>)
    ensures
        -(s.len() * 0xffff_ffff as int) <= sum_signed(s) <= s.len() * 0xffff_ffff as int,
    decreases s.len(),
{
    if s.len() > 0 {
        lemma_sum_signed_bound(s.drop_last());
        assert((s.len() - 1) * 0xffff_ffff as int + 0xffff_ffff as int == s.len()
            * 0xffff_ffff as int) by (nonlinear_arith);
    }
}

/// The signed total of a list of entries.
pub fn summarize_data(data: &Vec<Item>) -> (r: i64)
    requires
        data@.len() <= 0x1000_0000,
    ensures
        r == sum_signed(ledger_view(data@)),
{
    let ghost lvd = ledger_view(data@);
    let mut sum: i64 = 0;
    let mut i: usize = 0;
    while i < data.len()
        invariant
            0 <= i <= data@.len(),
            data@.len() <= 0x1000_0000,
            lvd == ledger_view(data@),
            sum == sum_signed(lvd.take(i as int)),
        decreases data@.len() - i,
    {
        proof {
            assert(lvd.take(i + 1).drop_last() =~= lvd.take(i as int));
            assert(lvd.take(i + 1).last() == data@[i as int]@);
            lemma_sum_signed_bound(lvd.take(i as int));
            assert(lvd.take(i as int).len() <= 0x1000_0000);
        }
        let amount = data[i].get_price_for_summary();
        sum = sum + amount;
        i += 1;
    }
    proof {
        assert(lvd.take(data@.len() as int) =~= lvd);
    }
    sum
}

/// The by-period totals: one row per distinct (year, month) present in
/// the ledger, in ascending chronological order, each with the signed
/// sum of the entries of that period.
pub fn period_totals(data: &Vec<Item>) -> (r: Vec<(Date, i64)>)
    requires
        data@.len() <= 0x1000_0000,
    ensures
        forall|a: int, b: int| 0 <= a < b < r@.len() ==> spec_period_lt(r@[a].0, r@[b].0),
        forall|j: int| 0 <= j < r@.len() ==> (#[trigger] r@[j]).0.day == 1,
        forall|j: int|
            0 <= j < r@.len() ==> (#[trigger] r@[j]).1 == sum_in_period(
                ledger_view(data@),
                r@[j].0.year as int,
                r@[j].0.month as int,
            ),
        forall|j: int|
            0 <= j < r@.len() ==> period_present(ledger_view(data@), (#[trigger] r@[j]).0),
        forall|i: int|
            0 <= i < data@.len() ==> keys_contain(r@, first_day_of(#[trigger] data@[i]@)),
        data@.len() == 0 ==> r@.len() == 0,
{
    let target_dates = get_target_dates(data);
    let mut r: Vec<(Date, i64)> = Vec::new();
    let mut i: usize = 0;
    while i < target_dates.len()
        invariant
            0 <= i <= target_dates@.len(),
            data@.len() <= 0x1000_0000,
            r@.len() == i,
            forall|j: int| 0 <= j < i ==> (#[trigger] r@[j]).0 == target_dates@[j],
            forall|j: int|
                0 <= j < i ==> (#[trigger] r@[j]).1 == sum_in_period(
                    ledger_view(data@),
                    target_dates@[j].year as int,
                    target_dates@[j].month as int,
                ),
            forall|a: int, b: int|
                0 <= a < b < target_dates@.len() ==> spec_period_lt(
                    target_dates@[a],
                    target_dates@[b],
                ),
            forall|j: int| 0 <= j < target_dates@.len() ==> (#[trigger] target_dates@[j]).day == 1,
            forall|j: int|
                0 <= j < target_dates@.len() ==> period_present(
                    ledger_view(data@),
                    #[trigger] target_dates@[j],
                ),
            forall|k: int|
                0 <= k < data@.len() ==> target_dates@.contains(
                    first_day_of(#[trigger] data@[k]@),
                ),
        decreases target_dates@.len() - i,
    {
        let date = target_dates[i];
        let filtered = get_filtered_data(data, date);
        let sum = summarize_data(&filtered);
        r.push((date, sum));
        i += 1;
    }
    proof {
        assert forall|k: int| 0 <= k < data@.len() implies keys_contain(
            r@,
            first_day_of(#[trigger] data@[k]@),
        ) by {
            let fd = first_day_of(data@[k]@);
            assert(target_dates@.contains(fd));
            let j = choose|j: int| 0 <= j < target_dates@.len() && target_dates@[j] == fd;
            assert(r@[j].0 == fd);
        }
        if data@.len() == 0 && r@.len() > 0 {
            assert(period_present(ledger_view(data@), r@[0].0));
        }
    }
    r
}

/// The label of a period key: year, a slash, month, no zero padding.
pub open spec fn spec_date_label(y: int, m: int) -> Seq<char> {
    spec_nat_digits(y as nat) + "/"@ + spec_nat_digits(m as nat)
}

/// Formats a period key as `year/month` without zero padding.
pub fn format_date(date: Date) -> (r: String)
    requires
        0 <= date.year,
    ensures
        r@ == spec_date_label(date.year as int, date.month as int),
{
    let mut s = u64_to_string(date.year as u64);
    s.append("/");
    append_u64_digits(&mut s, date.month as u64);
    s
}

/// The label of a signed total: `+` before positive values, `-` carried
/// by negative values, and plain `0` for zero.
pub open spec fn spec_price_label(v: int) -> Seq<char> {
    if v > 0 {
        seq!['+'] + spec_nat_digits(v as nat)
    } else if v == 0 {
        spec_nat_digits(0)
    } else {
        seq!['-'] + spec_nat_digits((-v) as nat)
    }
}

/// Formats a signed total: positive totals get a `+` prefix, zero is
/// rendered bare, negative totals keep their `-` sign.
pub fn format_price(price: i64) -> (r: String)
    ensures
        r@ == spec_price_label(price as int),
{
    if price > 0 {
        let mut s = String::from_str("+");
        proof {
            reveal_strlit("+");
            assert("+"@ =~= seq!['+']);
        }
        append_u64_digits(&mut s, price as u64);
        proof {
            assert(s@ =~= spec_price_label(price as int));
        }
        s
    } else if price == 0 {
        u64_to_string(0)
    } else {
        let mut s = String::from_str("-");
        proof {
            reveal_strlit("-");
            assert("-"@ =~= seq!['-']);
        }
        let magnitude: u64 = if price == i64::MIN {
            0x8000_0000_0000_0000u64
        } else {
            (-price) as u64
        };
        proof {
            assert(magnitude as int == -(price as int));
        }
        append_u64_digits(&mut s, magnitude);
        proof {
            assert(s@ =~= spec_price_label(price as int));
        }
        s
    }
}

/// One summary row: the period's label, then its signed balance.
pub open spec fn spec_row(y: int, m: int, v: int) -> Seq<char> {
    spec_date_label(y, m) + "の収支は"@ + spec_price_label(v) + "円でした"@
}

/// Renders the summary table, one row per period, in the table's order.
pub fn format_table(table: &Vec<(Date, i64)>) -> (r: Vec<String>)
    requires
        forall|j: int| 0 <= j < table@.len() ==> 0 <= (#[trigger] table@[j]).0.year,
    ensures
        r@.len() == table@.len(),
        forall|j: int|
            0 <= j < r@.len() ==> (#[trigger] r@[j])@ == spec_row(
                table@[j].0.year as int,
                table@[j].0.month as int,
                table@[j].1 as int,
            ),
{
    let mut r: Vec<String> = Vec::new();
    let mut i: usize = 0;
    while i < table.len()
        invariant
            0 <= i <= table@.len(),
            forall|j: int| 0 <= j < table@.len() ==> 0 <= (#[trigger] table@[j]).0.year,
            r@.len() == i,
            forall|j: int|
                0 <= j < i ==> (#[trigger] r@[j])@ == spec_row(
                    table@[j].0.year as int,
                    table@[j].0.month as int,
                    table@[j].1 as int,
                ),
        decreases table@.len() - i,
    {
        let (date, price) = table[i];
        let mut row = format_date(date);
        row.append("の収支は");
        let price_label = format_price(price);
        row.append(price_label.as_str());
        row.append("円でした");
        r.push(row);
        i += 1;
    }
    r
}

} // verus!
