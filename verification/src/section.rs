//! Sections — named, parameterized command sequences — and the execution
//! engine proper: parameter matching, symbol resolution through the scope
//! chain, command dispatch, and recursive invocation bounded by a ceiling.
//! Control-flow signals are explicit values threaded through every return
//! path, never an abrupt halt from deep inside the call graph.

use vstd::prelude::*;

use crate::frame::{has_var, spec_declare, spec_modify, spec_resolve, Frame};
use crate::signal::{RunError, RunErrorV, Signal};
use crate::value::{category_of, int_text, push_char, push_int_text, value_views, Value, ValueV};
use crate::variable::{Variable, VariableV};

verus! {

/// The recursion ceiling: an invocation at this depth fails rather than run.
pub const MAX_RECURSION: usize = 256;

/// The reserved introspection identifier under which every invocation binds
/// its own section's name, as a constant, in its fresh frame.
pub open spec fn self_binding_id() -> Seq<char> {
    "JAULA"@
}

/// One position of a section's declared parameter shape: the name the
/// argument is bound under, and the value category it must have.
pub struct ExpectedParameter {
    pub name: String,
    pub category: crate::value::ValueCategory,
}

/// The mathematical model of an `ExpectedParameter`.
pub struct ParamV {
    pub name: Seq<char>,
    pub category: crate::value::ValueCategory,
}

impl View for ExpectedParameter {
    type V = ParamV;

    open spec fn view(&self) -> ParamV {
        ParamV { name: self.name@, category: self.category }
    }
}

/// The models of a parameter shape, elementwise.
pub open spec fn param_views(s: Seq<ExpectedParameter>) -> Seq<ParamV> {
    s.map_values(|p: ExpectedParameter| p@)
}

/// A parsed operation, consumed by the dispatcher. Each command yields at
/// most one signal when executed.
pub enum Command {
    /// Resolve the value and write its textual form, with no line terminator.
    Print(Value),
    /// Resolve the value and write its textual form, then a line terminator.
    PrintLine(Value),
    /// Bind a new variable (name, value, constant) in the current frame.
    Declare(String, Value, bool),
    /// Replace the value of a variable in the current frame.
    Modify(String, Value),
    /// Invoke the named section with the given actual arguments.
    InvokeSection(String, Vec<Value>),
    /// End the current invocation early.
    Return,
    /// End the whole program with the given exit code.
    Terminate(i32),
}

/// The mathematical model of a `Command`.
pub enum CommandV {
    Print(ValueV),
    PrintLine(ValueV),
    Declare(Seq<char>, ValueV, bool),
    Modify(Seq<char>, ValueV),
    InvokeSection(Seq<char>, Seq<ValueV>),
    Return,
    Terminate(i32),
}

impl View for Command {
    type V = CommandV;

    open spec fn view(&self) -> CommandV {
        match self {
            Command::Print(v) => CommandV::Print(v@),
            Command::PrintLine(v) => CommandV::PrintLine(v@),
            Command::Declare(id, v, c) => CommandV::Declare(id@, v@, *c),
            Command::Modify(id, v) => CommandV::Modify(id@, v@),
            Command::InvokeSection(n, args) => CommandV::InvokeSection(n@, value_views(args@)),
            Command::Return => CommandV::Return,
            Command::Terminate(c) => CommandV::Terminate(*c),
        }
    }
}

/// A section as the parser hands it over: its name, its declared parameter
/// shape, and its command sequence.
pub struct ParsedSection {
    pub name: String,
    pub param_list: Vec<ExpectedParameter>,
    pub lines: Vec<Command>,
}

/// The mathematical model of a `ParsedSection`.
pub struct ParsedSectionV {
    pub name: Seq<char>,
    pub param_list: Seq<ParamV>,
    pub lines: Seq<CommandV>,
}

impl View for ParsedSection {
    type V = ParsedSectionV;

    open spec fn view(&self) -> ParsedSectionV {
        ParsedSectionV {
            name: self.name@,
            param_list: param_views(self.param_list@),
            lines: self.lines@.map_values(|c: Command| c@),
        }
    }
}

/// A constant declaration of a parsed program: a permanently-constant
/// binding installed in the registry's global frame at load time.
pub struct ConstDecl {
    pub identifier: String,
    pub value: Value,
}

/// The mathematical model of a `ConstDecl`.
pub struct ConstDeclV {
    pub identifier: Seq<char>,
    pub value: ValueV,
}

impl View for ConstDecl {
    type V = ConstDeclV;

    open spec fn view(&self) -> ConstDeclV {
        ConstDeclV { identifier: self.identifier@, value: self.value@ }
    }
}

/// A parsed program unit: its constant declarations and its sections.
pub struct Unit {
    pub consts: Vec<ConstDecl>,
    pub sects: Vec<ParsedSection>,
}

/// The mathematical model of a `Unit`.
pub struct UnitV {
    pub consts: Seq<ConstDeclV>,
    pub sects: Seq<ParsedSectionV>,
}

impl View for Unit {
    type V = UnitV;

    open spec fn view(&self) -> UnitV {
        UnitV {
            consts: self.consts@.map_values(|c: ConstDecl| c@),
            sects: self.sects@.map_values(|s: ParsedSection| s@),
        }
    }
}

/// A load-time identifier for a section.
pub type VMID = u64;

/// A loaded section: a named, parameterized command sequence, immutable once
/// loaded, plus a variable frame for standalone (non-reentrant) use. `run`
/// never touches that frame: it allocates a fresh one per invocation, since
/// concurrently live recursive invocations sharing one frame would corrupt
/// each other's bindings.
pub struct Section {
    /// The commands to execute, strictly in order.
    pub commands: Vec<Command>,
    /// The declared parameter shape actual arguments are validated against.
    pub args: Vec<ExpectedParameter>,
    /// The section's name, unique within a loaded registry.
    pub name: String,
    /// The identifier assigned at load time.
    pub id: VMID,
    /// The frame used by the standalone variable operations below.
    pub stack: Frame,
}

/// The mathematical model of a `Section`.
pub struct SectionV {
    pub commands: Seq<CommandV>,
    pub args: Seq<ParamV>,
    pub name: Seq<char>,
    pub id: VMID,
    pub stack: Seq<VariableV>,
}

impl View for Section {
    type V = SectionV;

    open spec fn view(&self) -> SectionV {
        SectionV {
            commands: self.commands@.map_values(|c: Command| c@),
            args: param_views(self.args@),
            name: self.name@,
            id: self.id,
            stack: self.stack@,
        }
    }
}

/// The models of a sequence of loaded sections, elementwise.
pub open spec fn section_views(s: Seq<Section>) -> Seq<SectionV> {
    s.map_values(|x: Section| x@)
}

/// Whether some loaded section bears `name`.
pub open spec fn has_section(ss: Seq<SectionV>, name: Seq<char>) -> bool {
    exists|i: int| 0 <= i < ss.len() && (#[trigger] ss[i]).name == name
}

/// Whether `actual` arguments fit a declared parameter shape: the lengths
/// are equal and, at every position, the actual value's runtime category is
/// the expected one. A symbol has no category (it must have been resolved
/// first), so an unresolved symbol never fits. No partial matches: any
/// mismatch anywhere invalidates the whole call.
pub open spec fn spec_arguments_match(actual: Seq<ValueV>, expected: Seq<ParamV>) -> bool {
    &&& actual.len() == expected.len()
    &&& forall|i: int|
        0 <= i < actual.len() ==> category_of(#[trigger] actual[i]) == Some(
            (#[trigger] expected[i]).category,
        )
}

/// A call with a wrong number of arguments never matches the shape.
pub proof fn lemma_arity_mismatch(actual: Seq<ValueV>, expected: Seq<ParamV>)
    ensures
        actual.len() != expected.len() ==> !spec_arguments_match(actual, expected),
{
}

/// The parameter matcher: validates actual arguments against a declared
/// parameter shape.
pub fn arguments_match(actual: &Vec<Value>, expected: &Vec<ExpectedParameter>) -> (r: bool)
    ensures
        r == spec_arguments_match(value_views(actual@), param_views(expected@)),
{
    if actual.len() != expected.len() {
        return false;
    }
    let n = actual.len();
    let mut i: usize = 0;
    while i < n
        invariant
            n == actual.len(),
            n == expected.len(),
            i <= n,
            forall|k: int|
                0 <= k < i ==> category_of(#[trigger] value_views(actual@)[k]) == Some(
                    (#[trigger] param_views(expected@)[k]).category,
                ),
        decreases n - i,
    {
        let cat = actual[i].category();
        let fits = match cat {
            None => false,
            Some(c) => c == expected[i].category,
        };
        if !fits {
            assert(category_of(value_views(actual@)[i as int]) != Some(
                param_views(expected@)[i as int].category,
            ));
            return false;
        }
        assert(category_of(value_views(actual@)[i as int]) == Some(
            param_views(expected@)[i as int].category,
        ));
        i += 1;
    }
    true
}

/// The variable `name` resolves to in the active scope chain: the current
/// frame first, the registry's global constants second.
pub open spec fn spec_chain_resolve(
    frame: Seq<VariableV>,
    globals: Seq<VariableV>,
    name: Seq<char>,
) -> Option<VariableV> {
    if has_var(frame, name) {
        spec_resolve(frame, name)
    } else {
        spec_resolve(globals, name)
    }
}

/// One-step symbol resolution: a symbol becomes the value of the variable
/// it names, or stays as it is when that name is unbound; any other value
/// is already concrete.
pub open spec fn spec_resolve_value(
    v: ValueV,
    frame: Seq<VariableV>,
    globals: Seq<VariableV>,
) -> ValueV {
    match v {
        ValueV::Symbol(n) => match spec_chain_resolve(frame, globals, n) {
            Some(var) => var.value,
            None => v,
        },
        _ => v,
    }
}

/// The textual form of a concrete value. A symbol (an unresolved or
/// doubly-deferred reference) renders nothing: documented display leniency,
/// not an error path.
pub open spec fn plain_text(v: ValueV) -> Seq<char> {
    match v {
        ValueV::Integer(i) => int_text(i),
        ValueV::Float(t) => t,
        ValueV::Char(c) => seq![c],
        ValueV::Str(s) => s,
        ValueV::Symbol(_) => Seq::<char>::empty(),
    }
}

/// What a print of `v` writes under the given scope chain.
pub open spec fn display_text(
    v: ValueV,
    frame: Seq<VariableV>,
    globals: Seq<VariableV>,
) -> Seq<char> {
    plain_text(spec_resolve_value(v, frame, globals))
}

/// Looks `name` up in the scope chain: the current frame, then the globals.
pub fn chain_resolve(frame: &Frame, globals: &Frame, name: &String) -> (r: Option<Variable>)
    requires
        frame.wf(),
        globals.wf(),
    ensures
        match spec_chain_resolve(frame@, globals@, name@) {
            Some(v) => r matches Some(rv) && rv@ == v,
            None => r is None,
        },
{
    match frame.resolve(name) {
        Some(v) => Some(v),
        None => globals.resolve(name),
    }
}

/// Resolves a value for reading: symbols are looked up once in the scope
/// chain; everything else passes through unchanged.
pub fn resolve_value(v: &Value, frame: &Frame, globals: &Frame) -> (r: Value)
    requires
        frame.wf(),
        globals.wf(),
    ensures
        r@ == spec_resolve_value(v@, frame@, globals@),
{
    match v {
        Value::Symbol(n) => match chain_resolve(frame, globals, n) {
            Some(var) => var.value,
            None => v.clone(),
        },
        _ => v.clone(),
    }
}

/// Appends the textual form of `v`, resolved in the given scope chain, to
/// `out`. An absent or doubly-deferred symbol appends nothing.
fn render_into(out: &mut String, v: &Value, frame: &Frame, globals: &Frame)
    requires
        frame.wf(),
        globals.wf(),
    ensures
        final(out)@ == old(out)@ + display_text(v@, frame@, globals@),
{
    let rv = resolve_value(v, frame, globals);
    match rv {
        Value::Integer(x) => push_int_text(out, x),
        Value::Float(t) => out.append(t.as_str()),
        Value::Char(c) => {
            push_char(out, c);
            proof {
                assert(final(out)@ =~= old(out)@ + seq![c]);
            }
        },
        Value::Str(s) => out.append(s.as_str()),
        Value::Symbol(_) => {
            proof {
                assert(final(out)@ =~= old(out)@ + Seq::<char>::empty());
            }
        },
    }
}

/// Finds the first loaded section bearing `name`.
pub fn find_section(sections: &Vec<Section>, name: &String) -> (r: Option<usize>)
    ensures
        match r {
            Some(i) => i < sections@.len() && section_views(sections@)[i as int].name == name@,
            None => !has_section(section_views(sections@), name@),
        },
        r matches Some(i) ==> spec_find_section(section_views(sections@), name@, 0) == Some(
            i as int,
        ),
        r is None ==> spec_find_section(section_views(sections@), name@, 0) is None,
{
    let n = sections.len();
    let mut i: usize = 0;
    while i < n
        invariant
            n == sections.len(),
            i <= n,
            forall|k: int| 0 <= k < i ==> (#[trigger] section_views(sections@)[k]).name != name@,
            spec_find_section(section_views(sections@), name@, 0) == spec_find_section(
                section_views(sections@),
                name@,
                i as int,
            ),
        decreases n - i,
    {
        if sections[i].name == *name {
            assert(section_views(sections@)[i as int].name == name@);
            assert(spec_find_section(section_views(sections@), name@, i as int) == Some(i as int));
            return Some(i);
        }
        assert(section_views(sections@)[i as int].name != name@);
        assert(spec_find_section(section_views(sections@), name@, i as int) == spec_find_section(
            section_views(sections@),
            name@,
            i + 1,
        ));
        i += 1;
    }
    assert(spec_find_section(section_views(sections@), name@, n as int) is None);
    None
}

/// Whether a parameter shape can be bound into a fresh frame without a
/// duplicate declaration: names pairwise distinct and none of them the
/// reserved introspection identifier.
pub open spec fn bindable(params: Seq<ParamV>) -> bool {
    &&& forall|i: int, j: int|
        0 <= i < j < params.len() ==> (#[trigger] params[i]).name != (#[trigger] params[j]).name
    &&& forall|i: int| 0 <= i < params.len() ==> (#[trigger] params[i]).name != self_binding_id()
}

impl Section {
    /// A loaded section built from a parsed one, with the given identifier
    /// and an empty frame.
    pub fn from_parser(section: ParsedSection, id: VMID) -> (r: Section)
        ensures
            r@.commands == section@.lines,
            r@.args == section@.param_list,
            r@.name == section@.name,
            r@.id == id,
            r@.stack == Seq::<VariableV>::empty(),
            r.stack.wf(),
    {
        Section {
            commands: section.lines,
            args: section.param_list,
            name: section.name,
            id,
            stack: Frame::new(),
        }
    }

    /// Looks a variable up in the section's standalone frame; `None` when
    /// the name is unbound — never a placeholder.
    pub fn get_var(&self, name: &String) -> (r: Option<Variable>)
        requires
            self.stack.wf(),
        ensures
            match spec_resolve(self@.stack, name@) {
                Some(v) => r matches Some(rv) && rv@ == v,
                None => r is None,
            },
    {
        self.stack.resolve(name)
    }

    /// Declares a variable in the section's standalone frame; fails with
    /// `DuplicateDeclaration` when the identifier is already bound, leaving
    /// the earlier binding intact.
    pub fn decl_var(&mut self, var: Variable) -> (r: Result<usize, RunError>)
        requires
            old(self).stack.wf(),
        ensures
            final(self).stack.wf(),
            final(self)@.commands == old(self)@.commands,
            final(self)@.args == old(self)@.args,
            final(self)@.name == old(self)@.name,
            final(self)@.id == old(self)@.id,
            match spec_declare(old(self)@.stack, var@.id, var@.value, var@.constant) {
                Some(f) => r matches Ok(a) && a == old(self)@.stack.len() && final(self)@.stack
                    == f,
                None => (r matches Err(e) && e@ == RunErrorV::DuplicateDeclaration(var@.id))
                    && final(self)@.stack == old(self)@.stack,
            },
    {
        self.stack.declare(var)
    }

    /// Modifies a variable in the section's standalone frame; `NotFound`
    /// when the name is unbound, `ConstantViolation` when the binding is
    /// constant — in both cases the frame is unchanged.
    pub fn mod_var(&mut self, name: &String, value: Value) -> (r: Result<(), RunError>)
        requires
            old(self).stack.wf(),
        ensures
            final(self).stack.wf(),
            final(self)@.commands == old(self)@.commands,
            final(self)@.args == old(self)@.args,
            final(self)@.name == old(self)@.name,
            final(self)@.id == old(self)@.id,
            match spec_modify(old(self)@.stack, name@, value@) {
                Ok(f) => r is Ok && final(self)@.stack == f,
                Err(e) => (r matches Err(re) && re@ == e) && final(self)@.stack == old(self)@.stack,
            },
    {
        self.stack.modify(name, value)
    }

    /// Modifies the variable when the name is bound (surfacing a
    /// `ConstantViolation` rather than silently ignoring it), and declares a
    /// fresh non-constant binding when it is not.
    pub fn decl_or_mod(&mut self, name: &String, value: Value) -> (r: Result<(), RunError>)
        requires
            old(self).stack.wf(),
        ensures
            final(self).stack.wf(),
            final(self)@.commands == old(self)@.commands,
            final(self)@.args == old(self)@.args,
            final(self)@.name == old(self)@.name,
            final(self)@.id == old(self)@.id,
            match spec_resolve(old(self)@.stack, name@) {
                Some(_) => match spec_modify(old(self)@.stack, name@, value@) {
                    Ok(f) => r is Ok && final(self)@.stack == f,
                    Err(e) => (r matches Err(re) && re@ == e) && final(self)@.stack == old(self)@.stack,
                },
                None => r is Ok && final(self)@.stack == spec_declare(
                    old(self)@.stack,
                    name@,
                    value@,
                    false,
                ).unwrap(),
            },
    {
        let bound = match self.stack.resolve(name) {
            Some(_) => true,
            None => false,
        };
        if bound {
            self.stack.modify(name, value)
        } else {
            let var = Variable::from(name.clone(), value, false);
            match self.stack.declare(var) {
                Ok(_) => Ok(()),
                Err(e) => Err(e),
            }
        }
    }
}


/// The outcome of one command in the mathematical model: what stands in the
/// output, the frame afterwards, and the result.
pub struct StepOutcome {
    pub out: Seq<char>,
    pub frame: Seq<VariableV>,
    pub result: Result<Option<Signal>, RunErrorV>,
}

/// The outcome of a section run (or of the rest of a command sequence) in
/// the mathematical model: what stands in the output, and the result.
pub struct ExecOutcome {
    pub out: Seq<char>,
    pub result: Result<Option<Signal>, RunErrorV>,
}

/// The model of a result the engine returns.
pub open spec fn result_view(r: Result<Option<Signal>, RunError>) -> Result<
    Option<Signal>,
    RunErrorV,
> {
    match r {
        Ok(s) => Ok(s),
        Err(e) => Err(e@),
    }
}

/// The index of the first loaded section bearing `name`, searching from `j`.
pub open spec fn spec_find_section(ss: Seq<SectionV>, name: Seq<char>, j: int) -> Option<int>
    decreases ss.len() - j,
{
    if j < 0 || j >= ss.len() {
        None
    } else if ss[j].name == name {
        Some(j)
    } else {
        spec_find_section(ss, name, j + 1)
    }
}

/// Binding the arguments from position `i` on under their parameter names
/// into `frame`: the frame afterwards, or the duplicate declaration raised.
pub open spec fn spec_bind_args(
    params: Seq<ParamV>,
    args: Seq<ValueV>,
    frame: Seq<VariableV>,
    i: int,
) -> Result<Seq<VariableV>, RunErrorV>
    decreases params.len() - i,
{
    if i < 0 || i >= params.len() {
        Ok(frame)
    } else {
        match spec_declare(frame, params[i].name, args[i], false) {
            Some(f) => spec_bind_args(params, args, f, i + 1),
            None => Err(RunErrorV::DuplicateDeclaration(params[i].name)),
        }
    }
}

/// What one command does, in the mathematical model: the dispatcher's exact
/// meaning. An invocation that would stand at the ceiling fails without
/// running; a completed invocation's `Return` is absorbed and its
/// `Terminate` re-propagated.
pub open spec fn spec_step(
    sects: Seq<SectionV>,
    globals: Seq<VariableV>,
    cmd: CommandV,
    frame: Seq<VariableV>,
    depth: int,
    out: Seq<char>,
) -> StepOutcome
    decreases MAX_RECURSION - depth, 0int, 0int,
{
    match cmd {
        CommandV::Print(v) => StepOutcome {
            out: out + display_text(v, frame, globals),
            frame,
            result: Ok(None),
        },
        CommandV::PrintLine(v) => StepOutcome {
            out: out + display_text(v, frame, globals) + seq!['\n'],
            frame,
            result: Ok(None),
        },
        CommandV::Declare(id, v, c) => match spec_declare(frame, id, v, c) {
            Some(f) => StepOutcome { out, frame: f, result: Ok(None) },
            None => StepOutcome {
                out,
                frame,
                result: Err(RunErrorV::DuplicateDeclaration(id)),
            },
        },
        CommandV::Modify(id, v) => match spec_modify(frame, id, v) {
            Ok(f) => StepOutcome { out, frame: f, result: Ok(None) },
            Err(e) => StepOutcome { out, frame, result: Err(e) },
        },
        CommandV::InvokeSection(name, cargs) => {
            let resolved = cargs.map_values(|v: ValueV| spec_resolve_value(v, frame, globals));
            match spec_find_section(sects, name, 0) {
                None => StepOutcome {
                    out,
                    frame,
                    result: Err(RunErrorV::MissingSection(name)),
                },
                Some(idx) => if depth + 1 >= MAX_RECURSION {
                    StepOutcome {
                        out,
                        frame,
                        result: Err(RunErrorV::RecursionLimitExceeded(name)),
                    }
                } else {
                    let sub = spec_run(sects, globals, sects[idx], resolved, depth + 1, out);
                    match sub.result {
                        Err(e) => StepOutcome { out: sub.out, frame, result: Err(e) },
                        Ok(Some(Signal::Terminate(c))) => StepOutcome {
                            out: sub.out,
                            frame,
                            result: Ok(Some(Signal::Terminate(c))),
                        },
                        _ => StepOutcome { out: sub.out, frame, result: Ok(None) },
                    }
                },
            }
        },
        CommandV::Return => StepOutcome { out, frame, result: Ok(Some(Signal::Return)) },
        CommandV::Terminate(c) => StepOutcome {
            out,
            frame,
            result: Ok(Some(Signal::Terminate(c))),
        },
    }
}

/// Running a command sequence from position `j` on, in the mathematical
/// model: strictly in order; a `Return` ends the invocation normally with
/// nothing after it executing, a `Terminate` stops it and is handed on
/// unchanged, an error stops it, and an exhausted sequence ends with no
/// signal.
pub open spec fn spec_run_commands(
    sects: Seq<SectionV>,
    globals: Seq<VariableV>,
    cmds: Seq<CommandV>,
    j: int,
    frame: Seq<VariableV>,
    depth: int,
    out: Seq<char>,
) -> ExecOutcome
    decreases MAX_RECURSION - depth, 0int, 1 + cmds.len() - j,
{
    if j < 0 || j >= cmds.len() {
        ExecOutcome { out, result: Ok(None) }
    } else {
        let st = spec_step(sects, globals, cmds[j], frame, depth, out);
        match st.result {
            Ok(None) => spec_run_commands(sects, globals, cmds, j + 1, st.frame, depth, st.out),
            Ok(Some(Signal::Return)) => ExecOutcome {
                out: st.out,
                result: Ok(Some(Signal::Return)),
            },
            Ok(Some(Signal::Terminate(c))) => ExecOutcome {
                out: st.out,
                result: Ok(Some(Signal::Terminate(c))),
            },
            Err(e) => ExecOutcome { out: st.out, result: Err(e) },
        }
    }
}

/// Running a section, in the mathematical model: the exact meaning of
/// `Section::run`. The ceiling is checked first, then the arguments against
/// the parameter shape; a fresh frame receives the section's own name under
/// the reserved introspection identifier and the arguments under their
/// parameter names; then the commands run in order.
pub open spec fn spec_run(
    sects: Seq<SectionV>,
    globals: Seq<VariableV>,
    sect: SectionV,
    args: Seq<ValueV>,
    depth: int,
    out: Seq<char>,
) -> ExecOutcome
    decreases MAX_RECURSION - depth, 1int, 0int,
{
    if depth >= MAX_RECURSION {
        ExecOutcome { out, result: Err(RunErrorV::RecursionLimitExceeded(sect.name)) }
    } else if !spec_arguments_match(args, sect.args) {
        ExecOutcome { out, result: Err(RunErrorV::ArgumentMismatch(sect.name)) }
    } else {
        let frame0 = seq![
            VariableV {
                id: self_binding_id(),
                value: ValueV::Str(sect.name),
                address: 0,
                constant: true,
            },
        ];
        match spec_bind_args(sect.args, args, frame0, 0) {
            Err(e) => ExecOutcome { out, result: Err(e) },
            Ok(frame) => spec_run_commands(sects, globals, sect.commands, 0, frame, depth, out),
        }
    }
}

/// Equal sequences are prefixes of each other; a concatenation extends its
/// left operand; the prefix relation is transitive.
proof fn lemma_prefix_refl<T>(a: Seq<T>)
    ensures
        a.is_prefix_of(a),
{
    assert(a =~= a.subrange(0, a.len() as int));
}

proof fn lemma_prefix_concat<T>(a: Seq<T>, b: Seq<T>)
    ensures
        a.is_prefix_of(a + b),
{
    assert(a =~= (a + b).subrange(0, a.len() as int));
}

proof fn lemma_prefix_trans<T>(a: Seq<T>, b: Seq<T>, c: Seq<T>)
    requires
        a.is_prefix_of(b),
        b.is_prefix_of(c),
    ensures
        a.is_prefix_of(c),
{
    assert(a =~= c.subrange(0, a.len() as int));
}

/// Executes one command against the current frame and scope chain: the
/// dispatcher of the engine. Yields at most one signal. `Print`/`PrintLine`
/// write the resolved value's textual form; `Declare`/`Modify` act on the
/// current frame exactly as the frame operations specify; `InvokeSection`
/// runs the named section one level deeper, absorbing its `Return` and
/// re-propagating its `Terminate`; `Return` and `Terminate` yield their
/// signal and do nothing else.
pub fn dispatch(
    cmd: &Command,
    sections: &Vec<Section>,
    globals: &Frame,
    frame: &mut Frame,
    out: &mut String,
    depth: usize,
) -> (r: Result<Option<Signal>, RunError>)
    requires
        globals.wf(),
        old(frame).wf(),
        depth < MAX_RECURSION,
    ensures
        final(frame).wf(),
        old(out)@.is_prefix_of(final(out)@),
        match cmd@ {
            CommandV::Print(v) => r == Ok::<Option<Signal>, RunError>(None) && final(frame)@
                == old(frame)@ && final(out)@ == old(out)@ + display_text(
                v,
                old(frame)@,
                globals@,
            ),
            CommandV::PrintLine(v) => r == Ok::<Option<Signal>, RunError>(None) && final(frame)@
                == old(frame)@ && final(out)@ == old(out)@ + display_text(
                v,
                old(frame)@,
                globals@,
            ) + seq!['\n'],
            CommandV::Declare(id, v, c) => final(out)@ == old(out)@ && match spec_declare(
                old(frame)@,
                id,
                v,
                c,
            ) {
                Some(f) => r == Ok::<Option<Signal>, RunError>(None) && final(frame)@ == f,
                None => (r matches Err(e) && e@ == RunErrorV::DuplicateDeclaration(id)) && final(frame)@ == old(frame)@,
            },
            CommandV::Modify(id, v) => final(out)@ == old(out)@ && match spec_modify(
                old(frame)@,
                id,
                v,
            ) {
                Ok(f) => r == Ok::<Option<Signal>, RunError>(None) && final(frame)@ == f,
                Err(e) => (r matches Err(re) && re@ == e) && final(frame)@ == old(frame)@,
            },
            CommandV::InvokeSection(name, _args) => final(frame)@ == old(frame)@ && r != Ok::<
                Option<Signal>,
                RunError,
            >(Some(Signal::Return)) && (!has_section(section_views(sections@), name) ==> (
            r matches Err(e) && e@ == RunErrorV::MissingSection(name)) && final(out)@ == old(out)@)
                && (has_section(section_views(sections@), name) && depth + 1 >= MAX_RECURSION
                ==> (r matches Err(e) && e@ == RunErrorV::RecursionLimitExceeded(name))
                && final(out)@ == old(out)@),
            CommandV::Return => r == Ok::<Option<Signal>, RunError>(Some(Signal::Return)) && final(frame)@ == old(frame)@ && final(out)@ == old(out)@,
            CommandV::Terminate(c) => r == Ok::<Option<Signal>, RunError>(
                Some(Signal::Terminate(c)),
            ) && final(frame)@ == old(frame)@ && final(out)@ == old(out)@,
        },
        ({
            let st = spec_step(
                section_views(sections@),
                globals@,
                cmd@,
                old(frame)@,
                depth as int,
                old(out)@,
            );
            final(out)@ == st.out && final(frame)@ == st.frame && result_view(r) == st.result
        }),
    decreases MAX_RECURSION - depth, 0int,
{
    // naming the step's meaning lets the prover unfold it once per arm
    let ghost st = spec_step(
        section_views(sections@),
        globals@,
        cmd@,
        old(frame)@,
        depth as int,
        old(out)@,
    );
    match cmd {
        Command::Print(v) => {
            render_into(out, v, frame, globals);
            proof {
                lemma_prefix_concat(old(out)@, display_text(v@, old(frame)@, globals@));
            }
            Ok(None)
        },
        Command::PrintLine(v) => {
            render_into(out, v, frame, globals);
            push_char(out, '\n');
            proof {
                assert(final(out)@ =~= old(out)@ + display_text(v@, old(frame)@, globals@)
                    + seq!['\n']);
                lemma_prefix_concat(
                    old(out)@,
                    display_text(v@, old(frame)@, globals@) + seq!['\n'],
                );
                assert(old(out)@ + (display_text(v@, old(frame)@, globals@) + seq!['\n']) =~= final(out)@);
            }
            Ok(None)
        },
        Command::Declare(id, v, c) => {
            proof {
                lemma_prefix_refl(old(out)@);
            }
            let var = Variable::from(id.clone(), v.clone(), *c);
            match frame.declare(var) {
                Ok(_) => Ok(None),
                Err(e) => Err(e),
            }
        },
        Command::Modify(id, v) => {
            proof {
                lemma_prefix_refl(old(out)@);
            }
            match frame.modify(id, v.clone()) {
                Ok(_) => Ok(None),
                Err(e) => Err(e),
            }
        },
        Command::InvokeSection(name, call_args) => {
            let n = call_args.len();
            let mut resolved: Vec<Value> = Vec::new();
            let mut i: usize = 0;
            while i < n
                invariant
                    n == call_args.len(),
                    i <= n,
                    frame.wf(),
                    globals.wf(),
                    resolved@.len() == i,
                    forall|k: int|
                        0 <= k < i ==> (#[trigger] resolved@[k])@ == spec_resolve_value(
                            call_args@[k]@,
                            frame@,
                            globals@,
                        ),
                decreases n - i,
            {
                resolved.push(resolve_value(&call_args[i], frame, globals));
                i += 1;
            }
            proof {
                assert(value_views(resolved@) =~= value_views(call_args@).map_values(
                    |v: ValueV| spec_resolve_value(v, frame@, globals@),
                ));
            }
            let ghost resolved_spec = value_views(call_args@).map_values(
                |v: ValueV| spec_resolve_value(v, old(frame)@, globals@),
            );
            assert(value_views(resolved@) == resolved_spec);
            match find_section(sections, name) {
                None => {
                    proof {
                        lemma_prefix_refl(old(out)@);
                        assert(spec_find_section(section_views(sections@), name@, 0) is None);
                        assert(st.out == out@ && st.frame == frame@ && st.result == Err::<
                            Option<Signal>,
                            RunErrorV,
                        >(RunErrorV::MissingSection(name@)));
                    }
                    Err(RunError::MissingSection(name.clone()))
                },
                Some(idx) => {
                    proof {
                        assert(spec_find_section(section_views(sections@), name@, 0) == Some(
                            idx as int,
                        ));
                        assert(section_views(sections@)[idx as int] == sections@[idx as int]@);
                    }
                    let target = &sections[idx];
                    let ghost sub = spec_run(
                        section_views(sections@),
                        globals@,
                        sections@[idx as int]@,
                        resolved_spec,
                        depth + 1,
                        old(out)@,
                    );
                    match target.run(sections, globals, &resolved, depth + 1, out) {
                        Err(e) => Err(e),
                        Ok(Some(Signal::Terminate(code))) => Ok(Some(Signal::Terminate(code))),
                        Ok(Some(Signal::Return)) => Ok(None),
                        Ok(None) => Ok(None),
                    }
                },
            }
        },
        Command::Return => {
            proof {
                lemma_prefix_refl(old(out)@);
            }
            Ok(Some(Signal::Return))
        },
        Command::Terminate(c) => {
            proof {
                lemma_prefix_refl(old(out)@);
            }
            Ok(Some(Signal::Terminate(*c)))
        },
    }
}

impl Section {
    /// Runs this section with the given (already resolved) actual arguments
    /// at the given recursion depth, appending whatever the invocation
    /// prints to `out`.
    ///
    /// An invocation at the ceiling fails with `RecursionLimitExceeded`
    /// before anything runs; arguments that do not fit the declared
    /// parameter shape fail with `ArgumentMismatch` before any command
    /// executes. Otherwise a fresh frame is allocated, the section's own
    /// name is bound under the reserved introspection identifier as a
    /// constant, each argument is bound under its parameter name, and the
    /// command sequence executes strictly in order: a `Return` signal ends
    /// the invocation normally, a `Terminate` signal stops it immediately
    /// and is handed to the caller unchanged, and an exhausted sequence ends
    /// with no signal.
    pub fn run(
        &self,
        sections: &Vec<Section>,
        globals: &Frame,
        actual: &Vec<Value>,
        depth: usize,
        out: &mut String,
    ) -> (r: Result<Option<Signal>, RunError>)
        requires
            globals.wf(),
        ensures
            old(out)@.is_prefix_of(final(out)@),
            depth >= MAX_RECURSION ==> (r matches Err(e) && e@
                == RunErrorV::RecursionLimitExceeded(self@.name)) && final(out)@ == old(out)@,
            depth < MAX_RECURSION && !spec_arguments_match(value_views(actual@), self@.args) ==> (
            r matches Err(e) && e@ == RunErrorV::ArgumentMismatch(self@.name)) && final(out)@
                == old(out)@,
            depth < MAX_RECURSION && spec_arguments_match(value_views(actual@), self@.args)
                && bindable(self@.args) && self@.commands.len() == 0 ==> r == Ok::<
                Option<Signal>,
                RunError,
            >(None) && final(out)@ == old(out)@,
            ({
                let st = spec_run(
                    section_views(sections@),
                    globals@,
                    self@,
                    value_views(actual@),
                    depth as int,
                    old(out)@,
                );
                final(out)@ == st.out && result_view(r) == st.result
            }),
        decreases MAX_RECURSION - depth, 1int,
    {
        proof {
            lemma_prefix_refl(old(out)@);
        }
        if depth >= MAX_RECURSION {
            return Err(RunError::RecursionLimitExceeded(self.name.clone()));
        }
        if !arguments_match(actual, &self.args) {
            return Err(RunError::ArgumentMismatch(self.name.clone()));
        }
        let mut frame = Frame::new();
        let own_name = Variable::from(
            String::from_str("JAULA"),
            Value::Str(self.name.clone()),
            true,
        );
        match frame.declare(own_name) {
            Ok(_) => {},
            Err(e) => {
                return Err(e);
            },
        }
        assert(frame@.len() == 1 && frame@[0].id == self_binding_id());
        let ghost frame0 = frame@;
        proof {
            assert(frame0 =~= seq![
                VariableV {
                    id: self_binding_id(),
                    value: ValueV::Str(self@.name),
                    address: 0,
                    constant: true,
                },
            ]);
        }
        let n_args = actual.len();
        let mut i: usize = 0;
        while i < n_args
            invariant
                n_args == actual.len(),
                actual.len() == self.args.len(),
                i <= n_args,
                frame.wf(),
                globals.wf(),
                depth < MAX_RECURSION,
                out@ == old(out)@,
                spec_arguments_match(value_views(actual@), self@.args),
                frame@.len() == i + 1,
                frame@[0].id == self_binding_id(),
                forall|k: int|
                    1 <= k <= i ==> (#[trigger] frame@[k]).id == self@.args[k - 1].name,
                frame0 == seq![
                    VariableV {
                        id: self_binding_id(),
                        value: ValueV::Str(self@.name),
                        address: 0,
                        constant: true,
                    },
                ],
                spec_bind_args(self@.args, value_views(actual@), frame0, 0) == spec_bind_args(
                    self@.args,
                    value_views(actual@),
                    frame@,
                    i as int,
                ),
            decreases n_args - i,
        {
            let var = Variable::from(self.args[i].name.clone(), actual[i].clone(), false);
            match frame.declare(var) {
                Ok(_) => {},
                Err(e) => {
                    proof {
                        // a failed binding means a parameter name collided with
                        // an earlier binding, so the shape was not bindable
                        let pname = self@.args[i as int].name;
                        assert(has_var(frame@, pname));
                        let w = choose|k: int|
                            0 <= k < frame@.len() && (#[trigger] frame@[k]).id == pname;
                        assert(!bindable(self@.args));
                        lemma_prefix_refl(out@);
                        assert(spec_bind_args(
                            self@.args,
                            value_views(actual@),
                            frame@,
                            i as int,
                        ) == Err::<Seq<VariableV>, RunErrorV>(
                            RunErrorV::DuplicateDeclaration(pname),
                        ));
                        let st = spec_run(
                            section_views(sections@),
                            globals@,
                            self@,
                            value_views(actual@),
                            depth as int,
                            old(out)@,
                        );
                        assert(st.out == out@ && st.result == Err::<Option<Signal>, RunErrorV>(
                            RunErrorV::DuplicateDeclaration(pname),
                        ));
                    }
                    return Err(e);
                },
            }
            i += 1;
        }
        proof {
            assert(spec_bind_args(self@.args, value_views(actual@), frame@, n_args as int)
                == Ok::<Seq<VariableV>, RunErrorV>(frame@));
        }
        let n_cmds = self.commands.len();
        let mut j: usize = 0;
        while j < n_cmds
            invariant
                n_cmds == self.commands.len(),
                j <= n_cmds,
                frame.wf(),
                globals.wf(),
                depth < MAX_RECURSION,
                spec_arguments_match(value_views(actual@), self@.args),
                old(out)@.is_prefix_of(out@),
                n_cmds == 0 ==> out@ == old(out)@,
                spec_run(
                    section_views(sections@),
                    globals@,
                    self@,
                    value_views(actual@),
                    depth as int,
                    old(out)@,
                ) == spec_run_commands(
                    section_views(sections@),
                    globals@,
                    self@.commands,
                    j as int,
                    frame@,
                    depth as int,
                    out@,
                ),
            decreases n_cmds - j,
        {
            let ghost out_before = out@;
            assert(self@.commands[j as int] == self.commands@[j as int]@);
            let outcome = dispatch(&self.commands[j], sections, globals, &mut frame, out, depth);
            proof {
                lemma_prefix_trans(old(out)@, out_before, out@);
            }
            match outcome {
                Err(e) => {
                    return Err(e);
                },
                Ok(Some(Signal::Return)) => {
                    return Ok(Some(Signal::Return));
                },
                Ok(Some(Signal::Terminate(code))) => {
                    return Ok(Some(Signal::Terminate(code)));
                },
                Ok(None) => {},
            }
            j += 1;
        }
        Ok(None)
    }

    /// Converts every section of a parsed unit into a loaded section,
    /// assigning identifiers sequentially from `*vmid` on.
    pub fn from_unit(unit: Unit, vmid: &mut VMID) -> (r: Vec<Section>)
        requires
            *old(vmid) + unit.sects@.len() <= VMID::MAX,
        ensures
            *final(vmid) == *old(vmid) + unit.sects@.len(),
            r@.len() == unit.sects@.len(),
            forall|k: int|
                0 <= k < r@.len() ==> {
                    let s = #[trigger] section_views(r@)[k];
                    &&& s.commands == unit@.sects[k].lines
                    &&& s.args == unit@.sects[k].param_list
                    &&& s.name == unit@.sects[k].name
                    &&& s.id == *old(vmid) + k
                    &&& s.stack == Seq::<VariableV>::empty()
                },
    {
        let ghost sects0 = unit.sects@;
        let mut res: Vec<Section> = Vec::new();
        let mut sects = unit.sects;
        while sects.len() > 0
            invariant
                sects0.len() <= VMID::MAX - *old(vmid),
                res@.len() + sects@.len() == sects0.len(),
                sects@ =~= sects0.skip(res@.len() as int),
                *vmid == *old(vmid) + res@.len(),
                forall|k: int|
                    0 <= k < res@.len() ==> {
                        let s = #[trigger] section_views(res@)[k];
                        &&& s.commands == sects0[k]@.lines
                        &&& s.args == sects0[k]@.param_list
                        &&& s.name == sects0[k]@.name
                        &&& s.id == *old(vmid) + k
                        &&& s.stack == Seq::<VariableV>::empty()
                    },
            decreases sects@.len(),
        {
            let parsed = sects.remove(0);
            assert(parsed@ == sects0[res@.len() as int]@);
            let sect = Section::from_parser(parsed, *vmid);
            *vmid = *vmid + 1;
            let ghost res_prev = res@;
            res.push(sect);
            proof {
                assert(sects@ =~= sects0.skip(res@.len() as int));
                assert(res@ == res_prev.push(sect));
                assert forall|k: int| 0 <= k < res@.len() implies {
                    let s = #[trigger] section_views(res@)[k];
                    &&& s.commands == sects0[k]@.lines
                    &&& s.args == sects0[k]@.param_list
                    &&& s.name == sects0[k]@.name
                    &&& s.id == *old(vmid) + k
                    &&& s.stack == Seq::<VariableV>::empty()
                } by {
                    assert(section_views(res@)[k] == res@[k]@);
                    if k < res_prev.len() {
                        assert(res@[k] == res_prev[k]);
                        assert(section_views(res_prev)[k] == res_prev[k]@);
                    } else {
                        assert(res@[k] == sect);
                    }
                }
            }
        }
        res
    }

    /// The sections of a list of parsed units, in order.
    pub open spec fn all_sects(units: Seq<Unit>) -> Seq<ParsedSectionV>
        decreases units.len(),
    {
        if units.len() == 0 {
            Seq::<ParsedSectionV>::empty()
        } else {
            Self::all_sects(units.drop_last()) + units.last()@.sects
        }
    }

    /// Converts every unit's sections into one list of loaded sections,
    /// with identifiers assigned sequentially from zero.
    pub fn load_all(units: Vec<Unit>) -> (r: Vec<Section>)
        requires
            Self::all_sects(units@).len() <= VMID::MAX,
        ensures
            r@.len() == Self::all_sects(units@).len(),
            forall|k: int|
                0 <= k < r@.len() ==> {
                    let s = #[trigger] section_views(r@)[k];
                    &&& s.commands == Self::all_sects(units@)[k].lines
                    &&& s.args == Self::all_sects(units@)[k].param_list
                    &&& s.name == Self::all_sects(units@)[k].name
                    &&& s.id == k
                    &&& s.stack == Seq::<VariableV>::empty()
                },
    {
        let ghost units0 = units@;
        let mut res: Vec<Section> = Vec::new();
        let mut vmid: VMID = 0;
        let mut units = units;
        while units.len() > 0
            invariant
                units0.len() >= units@.len(),
                units@ =~= units0.skip((units0.len() - units@.len()) as int),
                Self::all_sects(units0).len() <= VMID::MAX,
                res@.len() == Self::all_sects(
                    units0.take((units0.len() - units@.len()) as int),
                ).len(),
                vmid == res@.len(),
                Self::all_sects(units0.take((units0.len() - units@.len()) as int)).is_prefix_of(
                    Self::all_sects(units0),
                ),
                forall|k: int|
                    0 <= k < res@.len() ==> {
                        let s = #[trigger] section_views(res@)[k];
                        let p = Self::all_sects(
                            units0.take((units0.len() - units@.len()) as int),
                        )[k];
                        &&& s.commands == p.lines
                        &&& s.args == p.param_list
                        &&& s.name == p.name
                        &&& s.id == k
                        &&& s.stack == Seq::<VariableV>::empty()
                    },
            decreases units@.len(),
        {
            let ghost done = (units0.len() - units@.len()) as int;
            let unit = units.remove(0);
            assert(unit == units0[done]);
            proof {
                lemma_all_sects_take_step(units0, done);
                lemma_all_sects_take_prefix(units0, done + 1);
                assert(Self::all_sects(units0.take(done + 1)).len() <= Self::all_sects(
                    units0,
                ).len());
            }
            let ghost res_prev = res@;
            let mut more = Section::from_unit(unit, &mut vmid);
            let ghost more0 = more@;
            res.append(&mut more);
            proof {
                assert(units@ =~= units0.skip(done + 1));
                assert(res@ == res_prev + more0);
                let ghost taken = Self::all_sects(units0.take(done + 1));
                let ghost taken_prev = Self::all_sects(units0.take(done));
                assert(taken == taken_prev + units0[done]@.sects);
                assert forall|k: int| 0 <= k < res@.len() implies {
                    let s = #[trigger] section_views(res@)[k];
                    let p = Self::all_sects(
                        units0.take((units0.len() - units@.len()) as int),
                    )[k];
                    &&& s.commands == p.lines
                    &&& s.args == p.param_list
                    &&& s.name == p.name
                    &&& s.id == k
                    &&& s.stack == Seq::<VariableV>::empty()
                } by {
                    assert((units0.len() - units@.len()) as int == done + 1);
                    assert(section_views(res@)[k] == res@[k]@);
                    if k < res_prev.len() {
                        assert(res@[k] == res_prev[k]);
                        assert(section_views(res_prev)[k] == res_prev[k]@);
                        assert(taken[k] == taken_prev[k]);
                    } else {
                        let m = k - res_prev.len();
                        assert(res@[k] == more0[m]);
                        assert(section_views(more0)[m] == more0[m]@);
                        assert(taken[k] == units0[done]@.sects[m]);
                        assert(unit@.sects[m] == units0[done]@.sects[m]);
                    }
                }
            }
        }
        proof {
            assert(units0.take(units0.len() as int) =~= units0);
        }
        res
    }
}

/// Every take-prefix of the units yields a prefix of all the sections.
proof fn lemma_all_sects_take_prefix(units: Seq<Unit>, k: int)
    requires
        0 <= k <= units.len(),
    ensures
        Section::all_sects(units.take(k)).is_prefix_of(Section::all_sects(units)),
    decreases units.len() - k,
{
    if k == units.len() {
        assert(units.take(k) =~= units);
        lemma_prefix_refl(Section::all_sects(units));
    } else {
        lemma_all_sects_take_step(units, k);
        lemma_all_sects_take_prefix(units, k + 1);
        lemma_prefix_trans(
            Section::all_sects(units.take(k)),
            Section::all_sects(units.take(k + 1)),
            Section::all_sects(units),
        );
    }
}


/// A `Return` standing at position `k` of a command sequence ends that
/// invocation at once: no command after `k` executes, nothing more is
/// printed, and the invocation completes with the `Return` signal.
pub proof fn lemma_return_stops_the_sequence(
    sects: Seq<SectionV>,
    globals: Seq<VariableV>,
    cmds: Seq<CommandV>,
    k: int,
    frame: Seq<VariableV>,
    depth: int,
    out: Seq<char>,
)
    requires
        0 <= k < cmds.len(),
        cmds[k] is Return,
    ensures
        spec_run_commands(sects, globals, cmds, k, frame, depth, out) == (ExecOutcome {
            out,
            result: Ok::<Option<Signal>, RunErrorV>(Some(Signal::Return)),
        }),
{
    let st = spec_step(sects, globals, cmds[k], frame, depth, out);
    assert(st == (StepOutcome {
        out,
        frame,
        result: Ok::<Option<Signal>, RunErrorV>(Some(Signal::Return)),
    }));
}

/// A `Return` that a nested invocation produced is absorbed by the caller:
/// the invoke command yields no signal, and the caller's sequence resumes
/// with the next command as though the call had simply completed.
pub proof fn lemma_invoke_absorbs_return(
    sects: Seq<SectionV>,
    globals: Seq<VariableV>,
    cmds: Seq<CommandV>,
    k: int,
    frame: Seq<VariableV>,
    depth: int,
    out: Seq<char>,
)
    requires
        0 <= k < cmds.len(),
        spec_step(sects, globals, cmds[k], frame, depth, out).result == Ok::<
            Option<Signal>,
            RunErrorV,
        >(None),
    ensures
        spec_run_commands(sects, globals, cmds, k, frame, depth, out) == spec_run_commands(
            sects,
            globals,
            cmds,
            k + 1,
            spec_step(sects, globals, cmds[k], frame, depth, out).frame,
            depth,
            spec_step(sects, globals, cmds[k], frame, depth, out).out,
        ),
{
}

/// A `Terminate` that a nested invocation produced is handed to the caller
/// unchanged: the invoke command yields the same code.
pub proof fn lemma_invoke_propagates_terminate(
    sects: Seq<SectionV>,
    globals: Seq<VariableV>,
    name: Seq<char>,
    cargs: Seq<ValueV>,
    frame: Seq<VariableV>,
    depth: int,
    out: Seq<char>,
    code: i32,
)
    requires
        spec_find_section(sects, name, 0) matches Some(idx) && depth + 1 < MAX_RECURSION
            && spec_run(
            sects,
            globals,
            sects[idx],
            cargs.map_values(|v: ValueV| spec_resolve_value(v, frame, globals)),
            depth + 1,
            out,
        ).result == Ok::<Option<Signal>, RunErrorV>(Some(Signal::Terminate(code))),
    ensures
        spec_step(sects, globals, CommandV::InvokeSection(name, cargs), frame, depth, out).result
            == Ok::<Option<Signal>, RunErrorV>(Some(Signal::Terminate(code))),
{
}

/// A command that yields a `Terminate` ends the whole sequence at once with
/// that exact code: no later command at the same level executes or prints.
/// Together with `lemma_invoke_propagates_terminate` this carries a
/// terminate signal upward unchanged through every enclosing invocation.
pub proof fn lemma_terminate_stops_the_sequence(
    sects: Seq<SectionV>,
    globals: Seq<VariableV>,
    cmds: Seq<CommandV>,
    k: int,
    frame: Seq<VariableV>,
    depth: int,
    out: Seq<char>,
    code: i32,
)
    requires
        0 <= k < cmds.len(),
        spec_step(sects, globals, cmds[k], frame, depth, out).result == Ok::<
            Option<Signal>,
            RunErrorV,
        >(Some(Signal::Terminate(code))),
    ensures
        spec_run_commands(sects, globals, cmds, k, frame, depth, out) == (ExecOutcome {
            out: spec_step(sects, globals, cmds[k], frame, depth, out).out,
            result: Ok::<Option<Signal>, RunErrorV>(Some(Signal::Terminate(code))),
        }),
{
}

/// Taking one more unit appends exactly that unit's sections.
proof fn lemma_all_sects_take_step(units: Seq<Unit>, k: int)
    requires
        0 <= k < units.len(),
    ensures
        Section::all_sects(units.take(k + 1)) == Section::all_sects(units.take(k))
            + units[k]@.sects,
        Section::all_sects(units.take(k)).is_prefix_of(Section::all_sects(units.take(k + 1))),
        units.take(k + 1).len() <= units.len(),
{
    assert(units.take(k + 1).drop_last() =~= units.take(k));
    assert(units.take(k + 1).last() == units[k]);
    lemma_prefix_concat(Section::all_sects(units.take(k)), units[k]@.sects);
}

} // verus!
