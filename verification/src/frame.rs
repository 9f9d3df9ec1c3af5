//! Frame-scoped variable storage: the set of bindings visible during one
//! section invocation. A frame assigns slot indices sequentially at
//! declaration, keeps identifiers unique, reports a duplicate declaration
//! rather than overwriting, and refuses to modify a constant.

use vstd::prelude::*;

use crate::signal::{RunError, RunErrorV};
use crate::value::{Value, ValueV};
use crate::variable::{Variable, VariableV};

verus! {

/// A frame is well formed when slot indices are exactly the declaration
/// positions and identifiers are pairwise distinct.
pub open spec fn frame_wf(vars: Seq<VariableV>) -> bool {
    &&& forall|i: int| 0 <= i < vars.len() ==> (#[trigger] vars[i]).address == i
    &&& forall|i: int, j: int|
        0 <= i < j < vars.len() ==> (#[trigger] vars[i]).id != (#[trigger] vars[j]).id
}

/// Whether some variable in `vars` is bound under `id`.
pub open spec fn has_var(vars: Seq<VariableV>, id: Seq<char>) -> bool {
    exists|i: int| 0 <= i < vars.len() && (#[trigger] vars[i]).id == id
}

/// The variable bound under `id`, or `None`: a distinguishable not-found
/// outcome, never a placeholder binding.
pub open spec fn spec_resolve(vars: Seq<VariableV>, id: Seq<char>) -> Option<VariableV> {
    if has_var(vars, id) {
        Some(vars[choose|i: int| 0 <= i < vars.len() && (#[trigger] vars[i]).id == id])
    } else {
        None
    }
}

/// Declaration: the new frame contents, or `None` when `id` is already
/// bound. The new binding receives the next sequential slot index.
pub open spec fn spec_declare(
    vars: Seq<VariableV>,
    id: Seq<char>,
    value: ValueV,
    constant: bool,
) -> Option<Seq<VariableV>> {
    if has_var(vars, id) {
        None
    } else {
        Some(vars.push(VariableV { id, value, address: vars.len(), constant }))
    }
}

/// Modification: the new frame contents, or the error raised. Only the
/// bound value changes; identifier, slot index and constancy are kept.
pub open spec fn spec_modify(vars: Seq<VariableV>, id: Seq<char>, value: ValueV) -> Result<
    Seq<VariableV>,
    RunErrorV,
> {
    match spec_resolve(vars, id) {
        None => Err(RunErrorV::NotFound(id)),
        Some(v) => if v.constant {
            Err(RunErrorV::ConstantViolation(id))
        } else {
            Ok(vars.update(v.address as int, VariableV { value, ..v }))
        },
    }
}

/// The variable frame of one section invocation (or the registry's global
/// constants). Bindings are looked up by identifier; slot indices record
/// declaration order.
pub struct Frame {
    vars: Vec<Variable>,
}

impl View for Frame {
    type V = Seq<VariableV>;

    closed spec fn view(&self) -> Seq<VariableV> {
        self.vars@.map_values(|v: Variable| v@)
    }
}

impl Frame {
    /// Well-formedness: established by `new`, preserved by every method.
    pub open spec fn wf(&self) -> bool {
        frame_wf(self@)
    }

    /// An empty frame.
    pub fn new() -> (r: Frame)
        ensures
            r@ == Seq::<VariableV>::empty(),
            r.wf(),
    {
        let r = Frame { vars: Vec::new() };
        proof {
            assert(r@ =~= Seq::<VariableV>::empty());
        }
        r
    }

    /// The number of bindings in the frame.
    pub fn len(&self) -> (n: usize)
        ensures
            n == self@.len(),
    {
        self.vars.len()
    }

    /// Looks `name` up in the frame. Returns the bound variable, or `None`
    /// when the name is unbound — never a placeholder.
    pub fn resolve(&self, name: &String) -> (r: Option<Variable>)
        requires
            self.wf(),
        ensures
            match spec_resolve(self@, name@) {
                Some(v) => r matches Some(rv) && rv@ == v,
                None => r is None,
            },
    {
        let n = self.vars.len();
        let mut i: usize = 0;
        while i < n
            invariant
                n == self.vars.len(),
                i <= n,
                self.wf(),
                forall|k: int| 0 <= k < i ==> (#[trigger] self@[k]).id != name@,
            decreases n - i,
        {
            if self.vars[i].id == *name {
                assert(self@[i as int].id == name@);
                assert(has_var(self@, name@));
                proof {
                    let w = choose|k: int| 0 <= k < self@.len() && (#[trigger] self@[k]).id == name@;
                    assert(w == i as int);
                }
                return Some(self.vars[i].clone());
            }
            i += 1;
        }
        assert(!has_var(self@, name@));
        None
    }

    /// Declares `var` in the frame, assigning it the next sequential slot
    /// index; fails with `DuplicateDeclaration` when the identifier is
    /// already bound, in which case the frame — including the earlier
    /// binding — is left intact.
    pub fn declare(&mut self, var: Variable) -> (r: Result<usize, RunError>)
        requires
            old(self).wf(),
        ensures
            final(self).wf(),
            match spec_declare(old(self)@, var@.id, var@.value, var@.constant) {
                Some(f) => r matches Ok(a) && a == old(self)@.len() && final(self)@ == f,
                None => r matches Err(e) && e@ == RunErrorV::DuplicateDeclaration(var@.id)
                    && final(self)@ == old(self)@,
            },
    {
        let n = self.vars.len();
        let mut i: usize = 0;
        while i < n
            invariant
                n == self.vars.len(),
                i <= n,
                self.wf(),
                self@ == old(self)@,
                forall|k: int| 0 <= k < i ==> (#[trigger] self@[k]).id != var@.id,
            decreases n - i,
        {
            if self.vars[i].id == var.id {
                assert(self@[i as int].id == var@.id);
                assert(has_var(self@, var@.id));
                return Err(RunError::DuplicateDeclaration(var.id.clone()));
            }
            i += 1;
        }
        assert(!has_var(self@, var@.id));
        let ghost var0 = var@;
        let addr = self.vars.len();
        let mut placed = var;
        placed.address = addr;
        self.vars.push(placed);
        proof {
            assert(self@ =~= old(self)@.push(
                VariableV {
                    id: var0.id,
                    value: var0.value,
                    address: old(self)@.len(),
                    constant: var0.constant,
                },
            ));
        }
        Ok(addr)
    }

    /// Modifies the variable bound under `name`: fails with `NotFound` when
    /// the name is unbound and with `ConstantViolation` when the binding is
    /// constant, leaving the frame unchanged either way; otherwise replaces
    /// the bound value in place, preserving identifier and slot index.
    pub fn modify(&mut self, name: &String, value: Value) -> (r: Result<(), RunError>)
        requires
            old(self).wf(),
        ensures
            final(self).wf(),
            match spec_modify(old(self)@, name@, value@) {
                Ok(f) => r is Ok && final(self)@ == f,
                Err(e) => r matches Err(re) && re@ == e && final(self)@ == old(self)@,
            },
    {
        let n = self.vars.len();
        let mut i: usize = 0;
        while i < n
            invariant
                n == self.vars.len(),
                i <= n,
                self.wf(),
                self@ == old(self)@,
                forall|k: int| 0 <= k < i ==> (#[trigger] self@[k]).id != name@,
            decreases n - i,
        {
            if self.vars[i].id == *name {
                assert(self@[i as int].id == name@);
                assert(has_var(self@, name@));
                proof {
                    let w = choose|k: int| 0 <= k < self@.len() && (#[trigger] self@[k]).id == name@;
                    assert(w == i as int);
                }
                if self.vars[i].constant {
                    return Err(RunError::ConstantViolation(name.clone()));
                }
                let ghost value0 = value@;
                let addr = self.vars[i].address;
                let id = self.vars[i].id.clone();
                let constant = self.vars[i].constant;
                self.vars.set(i, Variable { id, value, address: addr, constant });
                proof {
                    let v = spec_resolve(old(self)@, name@).unwrap();
                    assert(self@ =~= old(self)@.update(
                        v.address as int,
                        VariableV { value: value0, ..v },
                    ));
                }
                return Ok(());
            }
            i += 1;
        }
        assert(!has_var(self@, name@));
        Err(RunError::NotFound(name.clone()))
    }
}

/// Declaring a second variable under an identifier that a first declaration
/// just bound fails, whatever value or constancy the second declaration
/// carries: a frame never holds two bindings of one identifier, and the
/// first declaration remains intact (a failed declaration leaves the frame
/// unchanged).
pub proof fn lemma_duplicate_declaration(
    vars: Seq<VariableV>,
    id: Seq<char>,
    v1: ValueV,
    c1: bool,
    v2: ValueV,
    c2: bool,
)
    requires
        spec_declare(vars, id, v1, c1) is Some,
    ensures
        spec_declare(spec_declare(vars, id, v1, c1).unwrap(), id, v2, c2) is None,
        spec_resolve(spec_declare(vars, id, v1, c1).unwrap(), id) matches Some(v) && v.value == v1,
{
    let f = spec_declare(vars, id, v1, c1).unwrap();
    assert(f[vars.len() as int].id == id);
    assert(has_var(f, id));
    let w = choose|i: int| 0 <= i < f.len() && (#[trigger] f[i]).id == id;
    assert(!has_var(vars, id));
    if w < vars.len() {
        assert(vars[w].id == id);
    }
    assert(w == vars.len() as int);
}

/// Modifying a constant variable fails with `ConstantViolation` and leaves
/// its value unchanged.
pub proof fn lemma_modify_constant(vars: Seq<VariableV>, id: Seq<char>, value: ValueV)
    requires
        spec_resolve(vars, id) matches Some(v) && v.constant,
    ensures
        spec_modify(vars, id, value) == Err::<Seq<VariableV>, RunErrorV>(
            RunErrorV::ConstantViolation(id),
        ),
{
}

/// Modifying a non-constant variable updates its value and preserves its
/// identifier, slot index and constancy; no other binding changes.
pub proof fn lemma_modify_preserves_slot(vars: Seq<VariableV>, id: Seq<char>, value: ValueV)
    requires
        frame_wf(vars),
        spec_resolve(vars, id) matches Some(v) && !v.constant,
    ensures
        spec_modify(vars, id, value) matches Ok(f) && {
            let v = spec_resolve(vars, id).unwrap();
            &&& spec_resolve(f, id) == Some(VariableV { value, ..v })
            &&& f.len() == vars.len()
            &&& forall|k: int| 0 <= k < vars.len() && k != v.address ==> f[k] == vars[k]
        },
{
    let v = spec_resolve(vars, id).unwrap();
    let f = spec_modify(vars, id, value)->Ok_0;
    assert(f[v.address as int].id == id);
    assert(has_var(f, id));
    let w = choose|i: int| 0 <= i < f.len() && (#[trigger] f[i]).id == id;
    assert(vars[w].id == f[w].id);
    let u = choose|i: int| 0 <= i < vars.len() && (#[trigger] vars[i]).id == id;
    assert(u == v.address as int);
    assert(w == v.address as int);
}

/// Resolving an unbound name returns the distinguishable not-found outcome,
/// and a successful resolution returns a binding whose identifier is the
/// queried name — never a placeholder with some other identifier.
pub proof fn lemma_resolve_unbound(vars: Seq<VariableV>, id: Seq<char>)
    ensures
        !has_var(vars, id) ==> spec_resolve(vars, id) is None,
        has_var(vars, id) ==> (spec_resolve(vars, id) matches Some(v) && v.id == id),
{
}

} // verus!
