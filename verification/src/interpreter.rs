//! The registry (engine) around the sections: it owns the loaded sections
//! and the global constants, loads parsed units, resolves and runs sections
//! by name, records the last observed signal, and installs the bootstrap
//! bindings before the default section runs.

use vstd::prelude::*;

use crate::frame::{frame_wf, has_var, spec_declare, spec_resolve, Frame};
use crate::section::{
    has_section, result_view, section_views, spec_find_section, spec_run, ConstDeclV,
    ParsedSectionV, Section, SectionV, Unit,
};
use crate::signal::{RunError, RunErrorV, Signal};
use crate::value::{Value, ValueV};
use crate::variable::{Variable, VariableV};

verus! {

/// Options passed to the environment.
pub struct EnvironmentOptions {
    /// The name of the section run at program start.
    default_section: String,
    /// Whether the host may emit extra diagnostic output (non-normative).
    verbose: bool,
}

/// The mathematical model of `EnvironmentOptions`.
pub struct EnvironmentOptionsV {
    pub default_section: Seq<char>,
    pub verbose: bool,
}

impl View for EnvironmentOptions {
    type V = EnvironmentOptionsV;

    closed spec fn view(&self) -> EnvironmentOptionsV {
        EnvironmentOptionsV { default_section: self.default_section@, verbose: self.verbose }
    }
}

impl EnvironmentOptions {
    /// The defaults: the default section is named `SHOW`, not verbose.
    pub fn new() -> (r: EnvironmentOptions)
        ensures
            r@.default_section == "SHOW"@,
            !r@.verbose,
    {
        EnvironmentOptions { default_section: String::from_str("SHOW"), verbose: false }
    }

    /// The name of the section run at program start.
    pub fn default_section(&self) -> (r: &String)
        ensures
            r@ == self@.default_section,
    {
        &self.default_section
    }

    /// Whether the host may emit extra diagnostic output.
    pub fn verbose(&self) -> (r: bool)
        ensures
            r == self@.verbose,
    {
        self.verbose
    }

    /// Sets the verbose flag.
    pub fn set_verbose(&mut self, value: bool)
        ensures
            final(self)@ == (EnvironmentOptionsV { verbose: value, ..old(self)@ }),
    {
        self.verbose = value;
    }

    /// Sets the name of the section run at program start.
    pub fn set_default_section(&mut self, value: String)
        ensures
            final(self)@ == (EnvironmentOptionsV { default_section: value@, ..old(self)@ }),
    {
        self.default_section = value;
    }
}

/// The variables a list of constant declarations loads, in order, with slot
/// indices assigned sequentially from `base` on; all permanently constant.
pub open spec fn const_vars(cs: Seq<ConstDeclV>, base: nat, k: int) -> Seq<VariableV> {
    Seq::new(
        k as nat,
        |m: int|
            VariableV {
                id: cs[m].identifier,
                value: cs[m].value,
                address: (base + m) as nat,
                constant: true,
            },
    )
}

/// The sections a list of parsed sections loads, in order, with identifiers
/// assigned sequentially from `base` on and empty frames.
pub open spec fn loaded_sections(ps: Seq<ParsedSectionV>, base: nat, k: int) -> Seq<SectionV> {
    Seq::new(
        k as nat,
        |m: int|
            SectionV {
                commands: ps[m].lines,
                args: ps[m].param_list,
                name: ps[m].name,
                id: (base + m) as u64,
                stack: Seq::<VariableV>::empty(),
            },
    )
}

/// Whether constant declarations can all be loaded on top of `vars`: their
/// identifiers are pairwise distinct and none is already bound.
pub open spec fn consts_loadable(vars: Seq<VariableV>, cs: Seq<ConstDeclV>) -> bool {
    &&& forall|i: int, j: int|
        0 <= i < j < cs.len() ==> (#[trigger] cs[i]).identifier != (#[trigger] cs[j]).identifier
    &&& forall|i: int| 0 <= i < cs.len() ==> !has_var(vars, (#[trigger] cs[i]).identifier)
}

/// Whether parsed sections can all be loaded beside `ss`: their names are
/// pairwise distinct and none is already taken — duplicate section names are
/// a load-time error.
pub open spec fn sections_loadable(ss: Seq<SectionV>, ps: Seq<ParsedSectionV>) -> bool {
    &&& forall|i: int, j: int|
        0 <= i < j < ps.len() ==> (#[trigger] ps[i]).name != (#[trigger] ps[j]).name
    &&& forall|i: int| 0 <= i < ps.len() ==> !has_section(ss, (#[trigger] ps[i]).name)
}

/// The global frame after the two bootstrap bindings: the user name under
/// `CUMPADE` and the integer one under `UM`, both constants, with the next
/// two sequential slot indices.
pub open spec fn bootstrap_vars(vars: Seq<VariableV>, username: Seq<char>) -> Seq<VariableV> {
    vars.push(
        VariableV {
            id: "CUMPADE"@,
            value: ValueV::Str(username),
            address: vars.len(),
            constant: true,
        },
    ).push(
        VariableV {
            id: "UM"@,
            value: ValueV::Integer(1),
            address: (vars.len() + 1) as nat,
            constant: true,
        },
    )
}

/// The mathematical model of an `Environment`.
pub struct EnvironmentV {
    pub variables: Seq<VariableV>,
    pub sections: Seq<SectionV>,
    pub options: EnvironmentOptionsV,
    pub last_signal: Option<Signal>,
}

/// The registry: the environment scripts run in. It owns the global
/// constants, the loaded sections (read-only once loading completes), the
/// configured options, and the most recently observed signal.
pub struct Environment {
    /// The global constants, visible from every invocation's scope chain.
    variables: Frame,
    /// The loaded sections, keyed by unique name.
    sections: Vec<Section>,
    /// The configured options.
    options: EnvironmentOptions,
    /// The signal the last completed top-level run produced, if any.
    last_signal: Option<Signal>,
}

impl View for Environment {
    type V = EnvironmentV;

    closed spec fn view(&self) -> EnvironmentV {
        EnvironmentV {
            variables: self.variables@,
            sections: section_views(self.sections@),
            options: self.options@,
            last_signal: self.last_signal,
        }
    }
}

impl Environment {
    /// Well-formedness: the global frame is well formed.
    pub open spec fn wf(&self) -> bool {
        frame_wf(self@.variables)
    }

    /// An empty environment with the given options.
    pub fn new(opts: EnvironmentOptions) -> (r: Environment)
        ensures
            r.wf(),
            r@.variables == Seq::<VariableV>::empty(),
            r@.sections == Seq::<SectionV>::empty(),
            r@.options == opts@,
            r@.last_signal is None,
    {
        let r = Environment {
            variables: Frame::new(),
            sections: Vec::new(),
            options: opts,
            last_signal: None,
        };
        proof {
            assert(section_views(r.sections@) =~= Seq::<SectionV>::empty());
        }
        r
    }

    /// The signal the last completed top-level run produced, if any.
    pub fn last_signal(&self) -> (r: Option<Signal>)
        ensures
            r == self@.last_signal,
    {
        self.last_signal
    }

    /// Declares a variable in the global frame, assigning the next
    /// sequential slot index; fails with `DuplicateDeclaration` when the
    /// identifier is already bound.
    pub fn declare_var(&mut self, var: Variable) -> (r: Result<usize, RunError>)
        requires
            old(self).wf(),
        ensures
            final(self).wf(),
            final(self)@.sections == old(self)@.sections,
            final(self)@.options == old(self)@.options,
            final(self)@.last_signal == old(self)@.last_signal,
            match spec_declare(old(self)@.variables, var@.id, var@.value, var@.constant) {
                Some(f) => r matches Ok(a) && a == old(self)@.variables.len() && final(self)@.variables == f,
                None => (r matches Err(e) && e@ == RunErrorV::DuplicateDeclaration(var@.id))
                    && final(self)@.variables == old(self)@.variables,
            },
    {
        self.variables.declare(var)
    }

    /// Resolves a name in the global frame: the bound variable, or the
    /// distinguishable not-found outcome — never a placeholder whose
    /// identifier is an empty string.
    pub fn get_var(&self, name: &String) -> (r: Option<Variable>)
        requires
            self.wf(),
        ensures
            match spec_resolve(self@.variables, name@) {
                Some(v) => r matches Some(rv) && rv@ == v,
                None => r is None,
            },
    {
        self.variables.resolve(name)
    }

    /// Loads a parsed unit without executing it: every constant declaration
    /// becomes a permanently-constant global variable, slot indices assigned
    /// sequentially across the full set, and every parsed section becomes a
    /// loaded section with a sequentially assigned identifier. Succeeds if
    /// and only if no constant identifier and no section name collides;
    /// a collision surfaces as an error, never as a silent overwrite.
    pub fn interpret(&mut self, unit: Unit) -> (r: Result<(), RunError>)
        requires
            old(self).wf(),
        ensures
            final(self).wf(),
            final(self)@.options == old(self)@.options,
            final(self)@.last_signal == old(self)@.last_signal,
            r is Ok <==> consts_loadable(old(self)@.variables, unit@.consts)
                && sections_loadable(old(self)@.sections, unit@.sects),
            r is Ok ==> final(self)@.variables == old(self)@.variables + const_vars(
                unit@.consts,
                old(self)@.variables.len(),
                unit@.consts.len() as int,
            ) && final(self)@.sections == old(self)@.sections + loaded_sections(
                unit@.sects,
                old(self)@.sections.len(),
                unit@.sects.len() as int,
            ),
            r matches Err(e) ==> e@ is DuplicateDeclaration || e@ is DuplicateSection,
    {
        let ghost u0 = unit@;
        let ghost vars0 = self@.variables;
        let ghost sections0 = self@.sections;
        let ghost craw0 = unit.consts@;
        let mut consts = unit.consts;
        while consts.len() > 0
            invariant
                self.wf(),
                u0 == unit@,
                vars0 == old(self)@.variables,
                sections0 == old(self)@.sections,
                self@.sections == sections0,
                self@.options == old(self)@.options,
                self@.last_signal == old(self)@.last_signal,
                consts@.len() <= craw0.len(),
                consts@ =~= craw0.skip((craw0.len() - consts@.len()) as int),
                u0.consts.len() == craw0.len(),
                forall|m: int| 0 <= m < craw0.len() ==> u0.consts[m] == (#[trigger] craw0[m])@,
                self@.variables =~= vars0 + const_vars(
                    u0.consts,
                    vars0.len(),
                    (craw0.len() - consts@.len()) as int,
                ),
                consts_loadable(vars0, u0.consts.take((craw0.len() - consts@.len()) as int)),
            decreases consts@.len(),
        {
            let ghost done = (craw0.len() - consts@.len()) as int;
            let c = consts.remove(0);
            assert(c == craw0[done]);
            let var = Variable::from(c.identifier, c.value, true);
            assert(var@.id == u0.consts[done].identifier && var@.value == u0.consts[done].value);
            match self.variables.declare(var) {
                Ok(_) => {},
                Err(e) => {
                    proof {
                        let cur = vars0 + const_vars(u0.consts, vars0.len(), done);
                        assert(has_var(cur, u0.consts[done].identifier));
                        let w = choose|i: int|
                            0 <= i < cur.len() && (#[trigger] cur[i]).id == u0.consts[done].identifier;
                        if w < vars0.len() {
                            assert(cur[w] == vars0[w]);
                            assert(has_var(vars0, u0.consts[done].identifier));
                            assert(!consts_loadable(vars0, u0.consts));
                        } else {
                            let m = w - vars0.len();
                            assert(cur[w] == const_vars(u0.consts, vars0.len(), done)[m]);
                            assert(u0.consts[m].identifier == u0.consts[done].identifier);
                            assert(!consts_loadable(vars0, u0.consts));
                        }
                    }
                    return Err(e);
                },
            }
            proof {
                assert(consts@ =~= craw0.skip(done + 1));
                assert(self@.variables =~= vars0 + const_vars(u0.consts, vars0.len(), done + 1));
                assert(consts_loadable(vars0, u0.consts.take(done + 1))) by {
                    assert(forall|i: int|
                        0 <= i < done + 1 ==> #[trigger] u0.consts.take(done + 1)[i] == u0.consts[i]);
                    let cur = vars0 + const_vars(u0.consts, vars0.len(), done);
                    assert(!has_var(cur, u0.consts[done].identifier));
                    assertforall_consts_step(vars0, u0.consts, done);
                }
            }
        }
        proof {
            assert(u0.consts.take(craw0.len() as int) =~= u0.consts);
        }
        let ghost vars_done = self@.variables;
        let ghost sraw0 = unit.sects@;
        let mut sects = unit.sects;
        while sects.len() > 0
            invariant
                self.wf(),
                u0 == unit@,
                vars0 == old(self)@.variables,
                sections0 == old(self)@.sections,
                vars_done == vars0 + const_vars(u0.consts, vars0.len(), u0.consts.len() as int),
                consts_loadable(vars0, u0.consts),
                self@.variables == vars_done,
                self@.options == old(self)@.options,
                self@.last_signal == old(self)@.last_signal,
                sects@.len() <= sraw0.len(),
                sects@ =~= sraw0.skip((sraw0.len() - sects@.len()) as int),
                u0.sects.len() == sraw0.len(),
                forall|m: int| 0 <= m < sraw0.len() ==> u0.sects[m] == (#[trigger] sraw0[m])@,
                self@.sections =~= sections0 + loaded_sections(
                    u0.sects,
                    sections0.len(),
                    (sraw0.len() - sects@.len()) as int,
                ),
                sections_loadable(sections0, u0.sects.take((sraw0.len() - sects@.len()) as int)),
            decreases sects@.len(),
        {
            let ghost done = (sraw0.len() - sects@.len()) as int;
            let parsed = sects.remove(0);
            assert(parsed == sraw0[done]);
            match crate::section::find_section(&self.sections, &parsed.name) {
                Some(_) => {
                    proof {
                        let cur = sections0 + loaded_sections(u0.sects, sections0.len(), done);
                        assert(has_section(cur, u0.sects[done].name));
                        let w = choose|i: int|
                            0 <= i < cur.len() && (#[trigger] cur[i]).name == u0.sects[done].name;
                        if w < sections0.len() {
                            assert(cur[w] == sections0[w]);
                            assert(has_section(sections0, u0.sects[done].name));
                            assert(!sections_loadable(sections0, u0.sects));
                        } else {
                            let m = w - sections0.len();
                            assert(cur[w] == loaded_sections(u0.sects, sections0.len(), done)[m]);
                            assert(u0.sects[m].name == u0.sects[done].name);
                            assert(!sections_loadable(sections0, u0.sects));
                        }
                    }
                    return Err(RunError::DuplicateSection(parsed.name));
                },
                None => {},
            }
            let id = self.sections.len() as u64;
            let ghost secs_prev = self.sections@;
            let sect = Section::from_parser(parsed, id);
            self.sections.push(sect);
            proof {
                assert(sects@ =~= sraw0.skip(done + 1));
                assert(self.sections@ == secs_prev.push(sect));
                let target = sections0 + loaded_sections(u0.sects, sections0.len(), done + 1);
                assert(section_views(secs_prev) == sections0 + loaded_sections(
                    u0.sects,
                    sections0.len(),
                    done,
                ));
                assert(section_views(secs_prev).len() == secs_prev.len());
                assert(secs_prev.len() == sections0.len() + done);
                assert forall|k: int| 0 <= k < self@.sections.len() implies #[trigger] self@.sections[k]
                    == target[k] by {
                    assert(self@.sections[k] == self.sections@[k]@);
                    if k < secs_prev.len() {
                        assert(self.sections@[k] == secs_prev[k]);
                        assert(section_views(secs_prev)[k] == secs_prev[k]@);
                        let prev_target = sections0 + loaded_sections(
                            u0.sects,
                            sections0.len(),
                            done,
                        );
                        assert(section_views(secs_prev)[k] == prev_target[k]);
                        if k >= sections0.len() {
                            assert(prev_target[k] == loaded_sections(
                                u0.sects,
                                sections0.len(),
                                done,
                            )[k - sections0.len()]);
                            assert(target[k] == loaded_sections(
                                u0.sects,
                                sections0.len(),
                                done + 1,
                            )[k - sections0.len()]);
                        }
                    } else {
                        assert(self.sections@[k] == sect);
                        assert(k == sections0.len() + done);
                        assert(target[k] == loaded_sections(
                            u0.sects,
                            sections0.len(),
                            done + 1,
                        )[done]);
                        assert(sect@.name == u0.sects[done].name);
                    }
                }
                assert(self@.sections =~= sections0 + loaded_sections(
                    u0.sects,
                    sections0.len(),
                    done + 1,
                ));
                assert(sections_loadable(sections0, u0.sects.take(done + 1))) by {
                    assert(forall|i: int|
                        0 <= i < done + 1 ==> #[trigger] u0.sects.take(done + 1)[i] == u0.sects[i]);
                    let cur = sections0 + loaded_sections(u0.sects, sections0.len(), done);
                    assert(!has_section(cur, u0.sects[done].name));
                    assertforall_sections_step(sections0, u0.sects, done);
                }
            }
        }
        proof {
            assert(u0.sects.take(sraw0.len() as int) =~= u0.sects);
        }
        Ok(())
    }

    /// Looks the section up by exact name — failing with `MissingSection`
    /// when absent — and runs it at recursion depth zero with the given
    /// actual arguments, recording the resulting signal (if the run
    /// completed) as the engine's last observed signal. Returns everything
    /// the run printed together with its outcome.
    pub fn run_section(&mut self, name: &String, args: Vec<Value>) -> (r: (
        String,
        Result<Option<Signal>, RunError>,
    ))
        requires
            old(self).wf(),
        ensures
            final(self).wf(),
            final(self)@.variables == old(self)@.variables,
            final(self)@.sections == old(self)@.sections,
            final(self)@.options == old(self)@.options,
            !has_section(old(self)@.sections, name@) ==> (r.1 matches Err(e) && e@
                == RunErrorV::MissingSection(name@)) && r.0@ == Seq::<char>::empty() && final(self)@.last_signal == old(self)@.last_signal,
            r.1 matches Ok(sig) ==> final(self)@.last_signal == sig,
            r.1 is Err ==> final(self)@.last_signal == old(self)@.last_signal,
            (spec_find_section(old(self)@.sections, name@, 0) matches Some(i) ==> {
                let st = spec_run(
                    old(self)@.sections,
                    old(self)@.variables,
                    old(self)@.sections[i],
                    crate::value::value_views(args@),
                    0,
                    Seq::<char>::empty(),
                );
                r.0@ == st.out && result_view(r.1) == st.result
            }),
    {
        let mut out = String::new();
        match crate::section::find_section(&self.sections, name) {
            None => (out, Err(RunError::MissingSection(name.clone()))),
            Some(idx) => {
                let res = self.sections[idx].run(
                    &self.sections,
                    &self.variables,
                    &args,
                    0,
                    &mut out,
                );
                match res {
                    Ok(sig) => {
                        self.last_signal = sig;
                        (out, Ok(sig))
                    },
                    Err(e) => (out, Err(e)),
                }
            },
        }
    }

    /// Program entry: installs the two implicit bootstrap bindings — the
    /// invoking operating-system user name and the integer one, both
    /// constants in the top-level frame — then runs the configured default
    /// section with no arguments.
    pub fn start_program(&mut self, username: String) -> (r: (
        String,
        Result<Option<Signal>, RunError>,
    ))
        requires
            old(self).wf(),
        ensures
            final(self).wf(),
            final(self)@.sections == old(self)@.sections,
            final(self)@.options == old(self)@.options,
            has_var(old(self)@.variables, "CUMPADE"@) || has_var(old(self)@.variables, "UM"@)
                ==> (r.1 matches Err(e) && e@ is DuplicateDeclaration) && r.0@ == Seq::<
                char,
            >::empty(),
            !has_var(old(self)@.variables, "CUMPADE"@) && !has_var(old(self)@.variables, "UM"@)
                ==> final(self)@.variables == bootstrap_vars(old(self)@.variables, username@) && (
            !has_section(old(self)@.sections, old(self)@.options.default_section) ==> (
            r.1 matches Err(e) && e@ == RunErrorV::MissingSection(
                old(self)@.options.default_section,
            )) && r.0@ == Seq::<char>::empty()),
            !has_var(old(self)@.variables, "CUMPADE"@) && !has_var(old(self)@.variables, "UM"@)
                ==> (spec_find_section(
                old(self)@.sections,
                old(self)@.options.default_section,
                0,
            ) matches Some(i) ==> {
                let st = spec_run(
                    old(self)@.sections,
                    bootstrap_vars(old(self)@.variables, username@),
                    old(self)@.sections[i],
                    Seq::<crate::value::ValueV>::empty(),
                    0,
                    Seq::<char>::empty(),
                );
                r.0@ == st.out && result_view(r.1) == st.result
            }),
            r.1 matches Ok(sig) ==> final(self)@.last_signal == sig,
    {
        proof {
            reveal_strlit("CUMPADE");
            reveal_strlit("UM");
        }
        let user_var = Variable::from(String::from_str("CUMPADE"), Value::Str(username), true);
        match self.variables.declare(user_var) {
            Ok(_) => {},
            Err(e) => {
                return (String::new(), Err(e));
            },
        }
        let one = Variable::from(String::from_str("UM"), Value::Integer(1), true);
        match self.variables.declare(one) {
            Ok(_) => {},
            Err(e) => {
                proof {
                    // the name collided either with an old binding or with
                    // the just-installed user-name binding, which it cannot
                    if !has_var(old(self)@.variables, "UM"@) {
                        assert(has_var(self@.variables, "UM"@));
                        let w = choose|i: int|
                            0 <= i < self@.variables.len() && (#[trigger] self@.variables[i]).id
                                == "UM"@;
                        if w < old(self)@.variables.len() {
                            assert(old(self)@.variables[w] == self@.variables[w]);
                            assert(has_var(old(self)@.variables, "UM"@));
                        } else {
                            assert(self@.variables[w].id == "CUMPADE"@);
                        }
                    }
                }
                return (String::new(), Err(e));
            },
        }
        proof {
            if has_var(old(self)@.variables, "UM"@) {
                let w = choose|i: int|
                    0 <= i < old(self)@.variables.len() && (#[trigger] old(self)@.variables[i]).id
                        == "UM"@;
                assert(old(self)@.variables.push(
                    VariableV {
                        id: "CUMPADE"@,
                        value: ValueV::Str(username@),
                        address: old(self)@.variables.len(),
                        constant: true,
                    },
                )[w] == old(self)@.variables[w]);
            }
        }
        let name = self.options.default_section.clone();
        let args: Vec<Value> = Vec::new();
        proof {
            assert(crate::value::value_views(args@) =~= Seq::<crate::value::ValueV>::empty());
        }
        self.run_section(&name, args)
    }
}

/// A fresh constant whose identifier collides with nothing loaded so far
/// keeps the prefix loadable one step further.
proof fn assertforall_consts_step(vars0: Seq<VariableV>, cs: Seq<ConstDeclV>, done: int)
    requires
        0 <= done < cs.len(),
        consts_loadable(vars0, cs.take(done)),
        !has_var(vars0 + const_vars(cs, vars0.len(), done), cs[done].identifier),
    ensures
        consts_loadable(vars0, cs.take(done + 1)),
{
    let cur = vars0 + const_vars(cs, vars0.len(), done);
    assert forall|i: int, j: int|
        0 <= i < j < done + 1 implies (#[trigger] cs.take(done + 1)[i]).identifier != (
    #[trigger] cs.take(done + 1)[j]).identifier by {
        if j == done {
            assert(cur[vars0.len() + i].id == cs[i].identifier);
            assert(!(cur[vars0.len() + i].id == cs[done].identifier));
        } else {
            assert(cs.take(done)[i] == cs[i] && cs.take(done)[j] == cs[j]);
        }
    }
    assert forall|i: int| 0 <= i < done + 1 implies !has_var(
        vars0,
        (#[trigger] cs.take(done + 1)[i]).identifier,
    ) by {
        if i == done {
            if has_var(vars0, cs[done].identifier) {
                let w = choose|k: int|
                    0 <= k < vars0.len() && (#[trigger] vars0[k]).id == cs[done].identifier;
                assert(cur[w] == vars0[w]);
                assert(has_var(cur, cs[done].identifier));
            }
        } else {
            assert(cs.take(done)[i] == cs[i]);
        }
    }
}

/// A fresh section name that collides with nothing loaded so far keeps the
/// prefix loadable one step further.
proof fn assertforall_sections_step(ss0: Seq<SectionV>, ps: Seq<ParsedSectionV>, done: int)
    requires
        0 <= done < ps.len(),
        sections_loadable(ss0, ps.take(done)),
        !has_section(ss0 + loaded_sections(ps, ss0.len(), done), ps[done].name),
    ensures
        sections_loadable(ss0, ps.take(done + 1)),
{
    let cur = ss0 + loaded_sections(ps, ss0.len(), done);
    assert forall|i: int, j: int|
        0 <= i < j < done + 1 implies (#[trigger] ps.take(done + 1)[i]).name != (#[trigger] ps.take(
        done + 1,
    )[j]).name by {
        if j == done {
            assert(cur[ss0.len() + i].name == ps[i].name);
            assert(!(cur[ss0.len() + i].name == ps[done].name));
        } else {
            assert(ps.take(done)[i] == ps[i] && ps.take(done)[j] == ps[j]);
        }
    }
    assert forall|i: int| 0 <= i < done + 1 implies !has_section(
        ss0,
        (#[trigger] ps.take(done + 1)[i]).name,
    ) by {
        if i == done {
            if has_section(ss0, ps[done].name) {
                let w = choose|k: int|
                    0 <= k < ss0.len() && (#[trigger] ss0[k]).name == ps[done].name;
                assert(cur[w] == ss0[w]);
                assert(has_section(cur, ps[done].name));
            }
        } else {
            assert(ps.take(done)[i] == ps[i]);
        }
    }
}

} // verus!
