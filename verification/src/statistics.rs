//! The statistics reports: totals grouped by year, and totals grouped by
//! calendar month alone (months of different years are merged).

use vstd::prelude::*;

use crate::decimal::{append_u64_digits, spec_nat_digits, u64_to_string};
use crate::models::{ledger_view, Item, ItemV};
use crate::summarize::sum_signed;

verus! {

pub open spec fn in_year(it: ItemV, y: int) -> bool {
    it.date.year == y
}

pub open spec fn in_month(it: ItemV, m: int) -> bool {
    it.date.month == m
}

/// The subsequence of entries whose year is `y`, in order.
pub open spec fn filter_year(s: Seq<ItemV>, y: int) -> Seq<ItemV>
    decreases s.len(),
{
    if s.len() == 0 {
        Seq::empty()
    } else {
        filter_year(s.drop_last(), y) + if in_year(s.last(), y) {
            seq![s.last()]
        } else {
            Seq::empty()
        }
    }
}

/// The subsequence of entries whose calendar month is `m`, whatever the
/// year, in order.
pub open spec fn filter_month(s: Seq<ItemV>, m: int) -> Seq<ItemV>
    decreases s.len(),
{
    if s.len() == 0 {
        Seq::empty()
    } else {
        filter_month(s.drop_last(), m) + if in_month(s.last(), m) {
            seq![s.last()]
        } else {
            Seq::empty()
        }
    }
}

pub open spec fn sum_in_year(s: Seq<ItemV>, y: int) -> int {
    sum_signed(filter_year(s, y))
}

pub open spec fn sum_in_month(s: Seq<ItemV>, m: int) -> int {
    sum_signed(filter_month(s, m))
}

pub open spec fn year_present(s: Seq<ItemV>, y: int) -> bool {
    exists|i: int| 0 <= i < s.len() && in_year(#[trigger] s[i], y)
}

pub open spec fn month_present(s: Seq<ItemV>, m: int) -> bool {
    exists|i: int| 0 <= i < s.len() && in_month(#[trigger] s[i], m)
}

/// Whether some entry of `s` has year `v`.
pub open spec fn year_key_ok(s: Seq<ItemV>, v: i64) -> bool {
    exists|k: int| 0 <= k < s.len() && (#[trigger] s[k]).date.year as i64 == v
}

/// Whether some entry of `s` has calendar month `v`.
pub open spec fn month_key_ok(s: Seq<ItemV>, v: i64) -> bool {
    exists|k: int| 0 <= k < s.len() && (#[trigger] s[k]).date.month as i64 == v
}

pub open spec fn year_keys_contain(t: Seq<(i32, i64)>, y: int) -> bool {
    exists|j: int| 0 <= j < t.len() && (#[trigger] t[j]).0 == y
}

pub open spec fn month_keys_contain(t: Seq<(u32, i64)>, m: int) -> bool {
    exists|j: int| 0 <= j < t.len() && (#[trigger] t[j]).0 == m
}

pub proof fn lemma_filter_year_len(s: Seq<ItemV>, y: int)
    ensures
        filter_year(s, y).len() <= s.len(),
    decreases s.len(),
{
    if s.len() > 0 {
        lemma_filter_year_len(s.drop_last(), y);
    }
}

pub proof fn lemma_filter_month_len(s: Seq<ItemV>, m: int)
    ensures
        filter_month(s, m).len() <= s.len(),
    decreases s.len(),
{
    if s.len() > 0 {
        lemma_filter_month_len(s.drop_last(), m);
    }
}

/// Inserts a key into a strictly ascending list of integers, keeping it
/// sorted and without duplicates.
fn insert_i64_key(keys: &mut Vec<i64>, x: i64)
    requires
        forall|a: int, b: int| 0 <= a < b < old(keys)@.len() ==> old(keys)@[a] < old(keys)@[b],
    ensures
        forall|a: int, b: int|
            0 <= a < b < final(keys)@.len() ==> final(keys)@[a] < final(keys)@[b],
        forall|v: i64| final(keys)@.contains(v) <==> old(keys)@.contains(v) || v == x,
{
    let ghost s0 = keys@;
    let mut idx: usize = 0;
    while idx < keys.len() && keys[idx] < x
        invariant
            0 <= idx <= keys@.len(),
            keys@ == s0,
            forall|a: int| 0 <= a < idx ==> keys@[a] < x,
        decreases keys@.len() - idx,
    {
        idx += 1;
    }
    if idx < keys.len() && keys[idx] == x {
        proof {
            assert(keys@[idx as int] == x);
            assert(keys@.contains(x));
        }
        return ;
    }
    keys.insert(idx, x);
    proof {
        let s1 = keys@;
        assert(s1 == s0.insert(idx as int, x));
        assert forall|a: int, b: int| 0 <= a < b < s1.len() implies s1[a] < s1[b] by {
            if b < idx {
            } else if a > idx {
            } else if a == idx {
                assert(s1[a] == x);
                assert(s1[b] == s0[b - 1]);
            } else if b == idx {
                assert(s1[b] == x);
                assert(s1[a] == s0[a]);
            } else {
                assert(s1[a] == s0[a]);
                assert(s1[b] == s0[b - 1]);
                assert(a < b - 1);
            }
        }
        assert forall|v: i64| s1.contains(v) <==> s0.contains(v) || v == x by {
            if s1.contains(v) {
                let j = choose|j: int| 0 <= j < s1.len() && s1[j] == v;
                if j < idx {
                    assert(s0[j] == v);
                } else if j > idx {
                    assert(s0[j - 1] == v);
                }
            }
            if s0.contains(v) {
                let j = choose|j: int| 0 <= j < s0.len() && s0[j] == v;
                if j < idx {
                    assert(s1[j] == v);
                } else {
                    assert(s1[j + 1] == v);
                }
            }
            if v == x {
                assert(s1[idx as int] == v);
            }
        }
    }
}

/// The signed total over the entries of year `y`.
fn sum_for_year(data: &Vec<Item>, y: i32) -> (r: i64)
    requires
        data@.len() <= 0x1000_0000,
    ensures
        r == sum_in_year(ledger_view(data@), y as int),
{
    let ghost lvd = ledger_view(data@);
    let mut sum: i64 = 0;
    let mut i: usize = 0;
    while i < data.len()
        invariant
            0 <= i <= data@.len(),
            data@.len() <= 0x1000_0000,
            lvd == ledger_view(data@),
            sum == sum_in_year(lvd.take(i as int), y as int),
        decreases data@.len() - i,
    {
        proof {
            assert(lvd.take(i + 1).drop_last() =~= lvd.take(i as int));
            assert(lvd.take(i + 1).last() == data@[i as int]@);
            lemma_filter_year_len(lvd.take(i as int), y as int);
            crate::summarize::lemma_sum_signed_bound(filter_year(lvd.take(i as int), y as int));
        }
        let it = &data[i];
        if it.get_year() == y {
            let amount = it.get_price_for_summary();
            proof {
                assert(filter_year(lvd.take(i + 1), y as int) =~= filter_year(
                    lvd.take(i as int),
                    y as int,
                ).push(lvd.take(i + 1).last()));
                assert(filter_year(lvd.take(i + 1), y as int).drop_last() =~= filter_year(
                    lvd.take(i as int),
                    y as int,
                ));
            }
            sum = sum + amount;
        } else {
            proof {
                assert(filter_year(lvd.take(i + 1), y as int) =~= filter_year(
                    lvd.take(i as int),
                    y as int,
                ));
            }
        }
        i += 1;
    }
    proof {
        assert(lvd.take(data@.len() as int) =~= lvd);
    }
    sum
}

/// The signed total over the entries of calendar month `m`, across years.
fn sum_for_month(data: &Vec<Item>, m: u32) -> (r: i64)
    requires
        data@.len() <= 0x1000_0000,
    ensures
        r == sum_in_month(ledger_view(data@), m as int),
{
    let ghost lvd = ledger_view(data@);
    let mut sum: i64 = 0;
    let mut i: usize = 0;
    while i < data.len()
        invariant
            0 <= i <= data@.len(),
            data@.len() <= 0x1000_0000,
            lvd == ledger_view(data@),
            sum == sum_in_month(lvd.take(i as int), m as int),
        decreases data@.len() - i,
    {
        proof {
            assert(lvd.take(i + 1).drop_last() =~= lvd.take(i as int));
            assert(lvd.take(i + 1).last() == data@[i as int]@);
            lemma_filter_month_len(lvd.take(i as int), m as int);
            crate::summarize::lemma_sum_signed_bound(filter_month(lvd.take(i as int), m as int));
        }
        let it = &data[i];
        if it.get_month() == m {
            let amount = it.get_price_for_summary();
            proof {
                assert(filter_month(lvd.take(i + 1), m as int) =~= filter_month(
                    lvd.take(i as int),
                    m as int,
                ).push(lvd.take(i + 1).last()));
                assert(filter_month(lvd.take(i + 1), m as int).drop_last() =~= filter_month(
                    lvd.take(i as int),
                    m as int,
                ));
            }
            sum = sum + amount;
        } else {
            proof {
                assert(filter_month(lvd.take(i + 1), m as int) =~= filter_month(
                    lvd.take(i as int),
                    m as int,
                ));
            }
        }
        i += 1;
    }
    proof {
        assert(lvd.take(data@.len() as int) =~= lvd);
    }
    sum
}

/// The by-year totals: one row per distinct year present in the ledger,
/// ascending, each with the signed sum of that year's entries.
pub fn yearly_totals(data: &Vec<Item>) -> (r: Vec<(i32, i64)>)
    requires
        data@.len() <= 0x1000_0000,
    ensures
        forall|a: int, b: int| 0 <= a < b < r@.len() ==> r@[a].0 < r@[b].0,
        forall|j: int|
            0 <= j < r@.len() ==> (#[trigger] r@[j]).1 == sum_in_year(
                ledger_view(data@),
                r@[j].0 as int,
            ),
        forall|j: int|
            0 <= j < r@.len() ==> year_present(ledger_view(data@), (#[trigger] r@[j]).0 as int),
        forall|i: int|
            0 <= i < data@.len() ==> year_keys_contain(r@, (#[trigger] data@[i]@).date.year as int),
        data@.len() == 0 ==> r@.len() == 0,
{
    let ghost lvd = ledger_view(data@);
    let mut keys: Vec<i64> = Vec::new();
    let mut i: usize = 0;
    while i < data.len()
        invariant
            0 <= i <= data@.len(),
            lvd == ledger_view(data@),
            forall|a: int, b: int| 0 <= a < b < keys@.len() ==> keys@[a] < keys@[b],
            forall|j: int| 0 <= j < keys@.len() ==> year_key_ok(lvd, #[trigger] keys@[j]),
            forall|k: int| 0 <= k < i ==> keys@.contains((#[trigger] data@[k]@).date.year as i64),
        decreases data@.len() - i,
    {
        let ghost kb = keys@;
        let y = data[i].get_year();
        insert_i64_key(&mut keys, y as i64);
        proof {
            assert forall|j: int| 0 <= j < keys@.len() implies year_key_ok(
                lvd,
                #[trigger] keys@[j],
            ) by {
                let v = keys@[j];
                assert(keys@.contains(v));
                if kb.contains(v) {
                    let jj = choose|jj: int| 0 <= jj < kb.len() && kb[jj] == v;
                    assert(year_key_ok(lvd, kb[jj]));
                } else {
                    assert(v == y as i64);
                    assert((lvd[i as int]).date.year as i64 == v);
                }
            }
            assert forall|k: int| 0 <= k < i + 1 implies keys@.contains(
                (#[trigger] data@[k]@).date.year as i64,
            ) by {
                if k < i {
                    assert(kb.contains(data@[k]@.date.year as i64));
                } else {
                    assert(keys@.contains(y as i64));
                }
            }
        }
        i += 1;
    }
    let mut r: Vec<(i32, i64)> = Vec::new();
    let mut j: usize = 0;
    while j < keys.len()
        invariant
            0 <= j <= keys@.len(),
            data@.len() <= 0x1000_0000,
            lvd == ledger_view(data@),
            r@.len() == j,
            forall|a: int, b: int| 0 <= a < b < keys@.len() ==> keys@[a] < keys@[b],
            forall|jj: int| 0 <= jj < keys@.len() ==> year_key_ok(lvd, #[trigger] keys@[jj]),
            forall|k: int|
                0 <= k < data@.len() ==> keys@.contains((#[trigger] data@[k]@).date.year as i64),
            forall|jj: int| 0 <= jj < j ==> (#[trigger] r@[jj]).0 as i64 == keys@[jj],
            forall|jj: int|
                0 <= jj < j ==> (#[trigger] r@[jj]).1 == sum_in_year(lvd, r@[jj].0 as int),
        decreases keys@.len() - j,
    {
        let k = keys[j];
        proof {
            assert(year_key_ok(lvd, keys@[j as int]));
        }
        let y = k as i32;
        proof {
            let kk = choose|kk: int|
                0 <= kk < lvd.len() && (#[trigger] lvd[kk]).date.year as i64 == keys@[j as int];
            assert(lvd[kk].date.year as i64 == k as i64);
            assert(y as i64 == k);
        }
        let total = sum_for_year(data, y);
        r.push((y, total));
        j += 1;
    }
    proof {
        assert forall|a: int, b: int| 0 <= a < b < r@.len() implies r@[a].0 < r@[b].0 by {
            assert(r@[a].0 as i64 == keys@[a]);
            assert(r@[b].0 as i64 == keys@[b]);
        }
        assert forall|jj: int| 0 <= jj < r@.len() implies year_present(
            lvd,
            (#[trigger] r@[jj]).0 as int,
        ) by {
            assert(year_key_ok(lvd, keys@[jj]));
            let k = choose|k: int|
                0 <= k < lvd.len() && (#[trigger] lvd[k]).date.year as i64 == keys@[jj];
            assert(in_year(lvd[k], r@[jj].0 as int));
        }
        assert forall|i2: int| 0 <= i2 < data@.len() implies year_keys_contain(
            r@,
            (#[trigger] data@[i2]@).date.year as int,
        ) by {
            let v = data@[i2]@.date.year as i64;
            assert(keys@.contains(v));
            let jj = choose|jj: int| 0 <= jj < keys@.len() && keys@[jj] == v;
            assert((r@[jj]).0 as i64 == v);
            assert((r@[jj]).0 as int == data@[i2]@.date.year as int);
        }
        if data@.len() == 0 && r@.len() > 0 {
            assert(year_key_ok(lvd, keys@[0]));
        }
    }
    r
}

/// The by-month totals: one row per distinct calendar month present in
/// the ledger, ascending 1 to 12, each with the signed sum over every
/// entry of that month in any year.
pub fn monthly_totals(data: &Vec<Item>) -> (r: Vec<(u32, i64)>)
    requires
        data@.len() <= 0x1000_0000,
    ensures
        forall|a: int, b: int| 0 <= a < b < r@.len() ==> r@[a].0 < r@[b].0,
        forall|j: int|
            0 <= j < r@.len() ==> (#[trigger] r@[j]).1 == sum_in_month(
                ledger_view(data@),
                r@[j].0 as int,
            ),
        forall|j: int|
            0 <= j < r@.len() ==> month_present(ledger_view(data@), (#[trigger] r@[j]).0 as int),
        forall|i: int|
            0 <= i < data@.len() ==> month_keys_contain(
                r@,
                (#[trigger] data@[i]@).date.month as int,
            ),
        data@.len() == 0 ==> r@.len() == 0,
{
    let ghost lvd = ledger_view(data@);
    let mut keys: Vec<i64> = Vec::new();
    let mut i: usize = 0;
    while i < data.len()
        invariant
            0 <= i <= data@.len(),
            lvd == ledger_view(data@),
            forall|a: int, b: int| 0 <= a < b < keys@.len() ==> keys@[a] < keys@[b],
            forall|j: int| 0 <= j < keys@.len() ==> month_key_ok(lvd, #[trigger] keys@[j]),
            forall|k: int| 0 <= k < i ==> keys@.contains((#[trigger] data@[k]@).date.month as i64),
        decreases data@.len() - i,
    {
        let ghost kb = keys@;
        let m = data[i].get_month();
        insert_i64_key(&mut keys, m as i64);
        proof {
            assert forall|j: int| 0 <= j < keys@.len() implies month_key_ok(
                lvd,
                #[trigger] keys@[j],
            ) by {
                let v = keys@[j];
                assert(keys@.contains(v));
                if kb.contains(v) {
                    let jj = choose|jj: int| 0 <= jj < kb.len() && kb[jj] == v;
                    assert(month_key_ok(lvd, kb[jj]));
                } else {
                    assert(v == m as i64);
                    assert((lvd[i as int]).date.month as i64 == v);
                }
            }
            assert forall|k: int| 0 <= k < i + 1 implies keys@.contains(
                (#[trigger] data@[k]@).date.month as i64,
            ) by {
                if k < i {
                    assert(kb.contains(data@[k]@.date.month as i64));
                } else {
                    assert(keys@.contains(m as i64));
                }
            }
        }
        i += 1;
    }
    let mut r: Vec<(u32, i64)> = Vec::new();
    let mut j: usize = 0;
    while j < keys.len()
        invariant
            0 <= j <= keys@.len(),
            data@.len() <= 0x1000_0000,
            lvd == ledger_view(data@),
            r@.len() == j,
            forall|a: int, b: int| 0 <= a < b < keys@.len() ==> keys@[a] < keys@[b],
            forall|jj: int| 0 <= jj < keys@.len() ==> month_key_ok(lvd, #[trigger] keys@[jj]),
            forall|k: int|
                0 <= k < data@.len() ==> keys@.contains((#[trigger] data@[k]@).date.month as i64),
            forall|jj: int| 0 <= jj < j ==> (#[trigger] r@[jj]).0 as i64 == keys@[jj],
            forall|jj: int|
                0 <= jj < j ==> (#[trigger] r@[jj]).1 == sum_in_month(lvd, r@[jj].0 as int),
        decreases keys@.len() - j,
    {
        let k = keys[j];
        proof {
            assert(month_key_ok(lvd, keys@[j as int]));
        }
        let m = k as u32;
        proof {
            let kk = choose|kk: int|
                0 <= kk < lvd.len() && (#[trigger] lvd[kk]).date.month as i64 == keys@[j as int];
            assert(lvd[kk].date.month as i64 == k as i64);
            assert(m as i64 == k);
        }
        let total = sum_for_month(data, m);
        r.push((m, total));
        j += 1;
    }
    proof {
        assert forall|a: int, b: int| 0 <= a < b < r@.len() implies r@[a].0 < r@[b].0 by {
            assert(r@[a].0 as i64 == keys@[a]);
            assert(r@[b].0 as i64 == keys@[b]);
        }
        assert forall|jj: int| 0 <= jj < r@.len() implies month_present(
            lvd,
            (#[trigger] r@[jj]).0 as int,
        ) by {
            assert(month_key_ok(lvd, keys@[jj]));
            let k = choose|k: int|
                0 <= k < lvd.len() && (#[trigger] lvd[k]).date.month as i64 == keys@[jj];
            assert(in_month(lvd[k], r@[jj].0 as int));
        }
        assert forall|i2: int| 0 <= i2 < data@.len() implies month_keys_contain(
            r@,
            (#[trigger] data@[i2]@).date.month as int,
        ) by {
            let v = data@[i2]@.date.month as i64;
            assert(keys@.contains(v));
            let jj = choose|jj: int| 0 <= jj < keys@.len() && keys@[jj] == v;
            assert((r@[jj]).0 as i64 == v);
            assert((r@[jj]).0 as int == data@[i2]@.date.month as int);
        }
        if data@.len() == 0 && r@.len() > 0 {
            assert(month_key_ok(lvd, keys@[0]));
        }
    }
    r
}

/// The label of a signed total rendered as-is: negative totals carry a
/// minus sign, others are bare digits.
pub open spec fn spec_signed_label(v: int) -> Seq<char> {
    if v >= 0 {
        spec_nat_digits(v as nat)
    } else {
        seq!['-'] + spec_nat_digits((-v) as nat)
    }
}

/// Formats a signed total with no `+` prefix for positive values.
pub fn format_signed(v: i64) -> (r: String)
    ensures
        r@ == spec_signed_label(v as int),
{
    if v >= 0 {
        u64_to_string(v as u64)
    } else {
        let mut s = String::from_str("-");
        proof {
            reveal_strlit("-");
            assert("-"@ =~= seq!['-']);
        }
        let magnitude: u64 = if v == i64::MIN {
            0x8000_0000_0000_0000u64
        } else {
            (-v) as u64
        };
        proof {
            assert(magnitude as int == -(v as int));
        }
        append_u64_digits(&mut s, magnitude);
        proof {
            assert(s@ =~= spec_signed_label(v as int));
        }
        s
    }
}

/// One by-year statistics row.
pub open spec fn spec_year_row(y: int, v: int) -> Seq<char> {
    spec_nat_digits(y as nat) + "年: "@ + spec_signed_label(v)
}

/// One by-month statistics row.
pub open spec fn spec_month_row(m: int, v: int) -> Seq<char> {
    spec_nat_digits(m as nat) + "月: "@ + spec_signed_label(v)
}

/// Renders the by-year statistics rows, in the table's order.
pub fn format_yearly_table(table: &Vec<(i32, i64)>) -> (r: Vec<String>)
    requires
        forall|j: int| 0 <= j < table@.len() ==> 0 <= (#[trigger] table@[j]).0,
    ensures
        r@.len() == table@.len(),
        forall|j: int|
            0 <= j < r@.len() ==> (#[trigger] r@[j])@ == spec_year_row(
                table@[j].0 as int,
                table@[j].1 as int,
            ),
{
    let mut r: Vec<String> = Vec::new();
    let mut i: usize = 0;
    while i < table.len()
        invariant
            0 <= i <= table@.len(),
            forall|j: int| 0 <= j < table@.len() ==> 0 <= (#[trigger] table@[j]).0,
            r@.len() == i,
            forall|j: int|
                0 <= j < i ==> (#[trigger] r@[j])@ == spec_year_row(
                    table@[j].0 as int,
                    table@[j].1 as int,
                ),
        decreases table@.len() - i,
    {
        let (y, v) = table[i];
        let mut row = u64_to_string(y as u64);
        row.append("年: ");
        let amount = format_signed(v);
        row.append(amount.as_str());
        r.push(row);
        i += 1;
    }
    r
}

/// Renders the by-month statistics rows, in the table's order.
pub fn format_monthly_table(table: &Vec<(u32, i64)>) -> (r: Vec<String>)
    ensures
        r@.len() == table@.len(),
        forall|j: int|
            0 <= j < r@.len() ==> (#[trigger] r@[j])@ == spec_month_row(
                table@[j].0 as int,
                table@[j].1 as int,
            ),
{
    let mut r: Vec<String> = Vec::new();
    let mut i: usize = 0;
    while i < table.len()
        invariant
            0 <= i <= table@.len(),
            r@.len() == i,
            forall|j: int|
                0 <= j < i ==> (#[trigger] r@[j])@ == spec_month_row(
                    table@[j].0 as int,
                    table@[j].1 as int,
                ),
        decreases table@.len() - i,
    {
        let (m, v) = table[i];
        let mut row = u64_to_string(m as u64);
        row.append("月: ");
        let amount = format_signed(v);
        row.append(amount.as_str());
        r.push(row);
        i += 1;
    }
    r
}

} // verus!
