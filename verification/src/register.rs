//! The registration path: turning validated inputs into a new entry and
//! appending it to the ledger.

use vstd::prelude::*;

use crate::models::{ledger_view, spec_category_of, Date, Item, ItemV, LedgerError};

verus! {

/// Appends one entry built from the given parts to the ledger. The
/// register type selects the income (0) or expense (non-zero) side; a
/// category kind outside {0, 1, 2} is rejected with `InvalidCategory`
/// and leaves the ledger unchanged.
pub fn register_entry(
    ledger: &mut Vec<Item>,
    register_type: u8,
    category_type: u8,
    name: String,
    price: u32,
    date: Date,
) -> (r: Result<(), LedgerError>)
    requires
        date.valid(),
    ensures
        category_type <= 2 ==> r == Ok::<(), LedgerError>(()) && ledger_view(final(ledger)@)
            == ledger_view(old(ledger)@).push(
            ItemV {
                name: name@,
                category: spec_category_of(register_type, category_type),
                price,
                date,
            },
        ),
        category_type > 2 ==> r == Err::<(), LedgerError>(LedgerError::InvalidCategory)
            && final(ledger)@ == old(ledger)@,
{
    let category = match Item::get_category(register_type, category_type) {
        Ok(c) => c,
        Err(e) => {
            return Err(e);
        },
    };
    let item = Item::new(name, category, price, date);
    ledger.push(item);
    proof {
        assert(ledger_view(ledger@) =~= ledger_view(old(ledger)@).push(
            ItemV {
                name: item@.name,
                category: spec_category_of(register_type, category_type),
                price,
                date,
            },
        ));
    }
    Ok(())
}

} // verus!
