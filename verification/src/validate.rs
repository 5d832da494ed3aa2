//! Validation of the small integer codes the interactive shell supplies.

use vstd::prelude::*;

verus! {

/// Checks the integer codes read at the prompt before the core uses them.
pub struct InputValidator {}

impl InputValidator {
    /// A service type selects registration (0), summary (1) or
    /// statistics (2); anything else is invalid.
    pub fn validate_service_type(service_type: u8) -> (r: bool)
        ensures
            r <==> service_type <= 2,
    {
        match service_type {
            0 | 1 | 2 => true,
            _ => false,
        }
    }

    /// A register type is income (0) or expense (1); anything else is
    /// invalid.
    pub fn validate_register_type(register_type: u8) -> (r: bool)
        ensures
            r <==> register_type <= 1,
    {
        match register_type {
            0 | 1 => true,
            _ => false,
        }
    }

    /// A category kind must lie in {0, 1, 2}, for either register type.
    pub fn validate_category_type(register_type: u8, category_type: u8) -> (r: bool)
        ensures
            r <==> category_type <= 2,
    {
        if register_type == 0 {
            match category_type {
                0 | 1 | 2 => true,
                _ => false,
            }
        } else {
            match category_type {
                0 | 1 | 2 => true,
                _ => false,
            }
        }
    }
}

} // verus!
