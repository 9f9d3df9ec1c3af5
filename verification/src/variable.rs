//! A named, optionally constant binding from an identifier to a value,
//! carrying the frame-local slot index it was assigned at declaration.

use vstd::prelude::*;

use crate::signal::{RunError, RunErrorV};
use crate::value::{Value, ValueV};

verus! {

/// A variable: a binding from an identifier to a value. The slot index
/// (`address`) is assigned sequentially by the owning frame when the
/// variable is declared, and is stable thereafter.
pub struct Variable {
    /// The identifier, unique within the owning frame.
    pub id: String,
    /// The bound value.
    pub value: Value,
    /// The frame-local slot index; meaningful once a frame owns the
    /// variable, which assigns the next sequential index at insertion.
    pub address: usize,
    /// Once true, no later modification may change `value`.
    pub constant: bool,
}

/// The mathematical model of a `Variable`.
pub struct VariableV {
    pub id: Seq<char>,
    pub value: ValueV,
    pub address: nat,
    pub constant: bool,
}

impl View for Variable {
    type V = VariableV;

    open spec fn view(&self) -> VariableV {
        VariableV { id: self.id@, value: self.value@, address: self.address as nat, constant: self.constant }
    }
}

impl Clone for Variable {
    fn clone(&self) -> (r: Self)
        ensures
            r == self,
    {
        Variable {
            id: self.id.clone(),
            value: self.value.clone(),
            address: self.address,
            constant: self.constant,
        }
    }
}

impl Variable {
    /// A new variable with an as-yet-unassigned slot; the owning frame
    /// assigns the real slot index when the variable is declared.
    pub fn from(vid: String, val: Value, is_const: bool) -> (r: Variable)
        ensures
            r@ == (VariableV { id: vid@, value: val@, address: 0, constant: is_const }),
    {
        Variable { id: vid, value: val, address: 0, constant: is_const }
    }

    /// Replaces the bound value in place, leaving the identifier and slot
    /// index unchanged; fails if the variable is constant, in which case
    /// the value is left unchanged as well.
    pub fn modify(&mut self, val: Value) -> (r: Result<(), RunError>)
        ensures
            old(self)@.constant ==> (r matches Err(e) && e@ == RunErrorV::ConstantViolation(
                old(self)@.id,
            ) && final(self)@ == old(self)@),
            !old(self)@.constant ==> r is Ok && final(self)@ == (VariableV {
                value: val@,
                ..old(self)@
            }),
    {
        if self.constant {
            Err(RunError::ConstantViolation(self.id.clone()))
        } else {
            self.value = val;
            Ok(())
        }
    }
}

} // verus!
