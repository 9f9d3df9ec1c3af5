//! End-to-end behaviour of the execution engine: printing, argument
//! validation, control-flow signals, and the recursion ceiling.

use sectvm::frame::Frame;
use sectvm::section::{
    arguments_match, Command, ExpectedParameter, ParsedSection, Section, MAX_RECURSION,
};
use sectvm::signal::{exit_status, RunError, Signal};
use sectvm::value::{Value, ValueCategory};

fn section(name: &str, params: Vec<ExpectedParameter>, lines: Vec<Command>) -> Section {
    Section::from_parser(
        ParsedSection {
            name: String::from(name),
            param_list: params,
            lines,
        },
        0,
    )
}

fn run_alone(sect: &Section, args: Vec<Value>, depth: usize) -> (String, Result<Option<Signal>, RunError>) {
    let sections: Vec<Section> = Vec::new();
    let globals = Frame::new();
    let mut out = String::new();
    let r = sect.run(&sections, &globals, &args, depth, &mut out);
    (out, r)
}

#[test]
fn print_then_print_line_produces_exactly_5x_newline() {
    let sect = section(
        "MAIN",
        vec![],
        vec![
            Command::Print(Value::Integer(5)),
            Command::PrintLine(Value::Str(String::from("x"))),
        ],
    );
    let (out, r) = run_alone(&sect, vec![], 0);
    assert!(matches!(r, Ok(None)));
    assert_eq!(out, "5x\n");
}

#[test]
fn integer_rendering_covers_zero_negative_and_extremes() {
    let sect = section(
        "NUMS",
        vec![],
        vec![
            Command::Print(Value::Integer(0)),
            Command::Print(Value::Char(' ')),
            Command::Print(Value::Integer(-42)),
            Command::Print(Value::Char(' ')),
            Command::Print(Value::Integer(i64::MAX)),
            Command::Print(Value::Char(' ')),
            Command::Print(Value::Integer(i64::MIN)),
        ],
    );
    let (out, r) = run_alone(&sect, vec![], 0);
    assert!(matches!(r, Ok(None)));
    assert_eq!(out, "0 -42 9223372036854775807 -9223372036854775808");
}

#[test]
fn float_and_char_render_their_text() {
    let sect = section(
        "MIX",
        vec![],
        vec![
            Command::Print(Value::Float(String::from("2.5"))),
            Command::Print(Value::Char('z')),
        ],
    );
    let (out, _) = run_alone(&sect, vec![], 0);
    assert_eq!(out, "2.5z");
}

#[test]
fn unresolved_symbol_prints_nothing() {
    let sect = section(
        "LENIENT",
        vec![],
        vec![
            Command::Print(Value::Str(String::from("a"))),
            Command::Print(Value::Symbol(String::from("NOWHERE"))),
            Command::Print(Value::Str(String::from("b"))),
        ],
    );
    let (out, r) = run_alone(&sect, vec![], 0);
    assert!(matches!(r, Ok(None)));
    assert_eq!(out, "ab");
}

#[test]
fn symbol_resolves_through_declared_variable() {
    let sect = section(
        "SYMS",
        vec![],
        vec![
            Command::Declare(String::from("N"), Value::Integer(9), false),
            Command::Print(Value::Symbol(String::from("N"))),
        ],
    );
    let (out, _) = run_alone(&sect, vec![], 0);
    assert_eq!(out, "9");
}

#[test]
fn doubly_deferred_symbol_prints_nothing() {
    let sect = section(
        "DEFER",
        vec![],
        vec![
            Command::Declare(
                String::from("A"),
                Value::Symbol(String::from("B")),
                false,
            ),
            Command::Print(Value::Symbol(String::from("A"))),
            Command::Print(Value::Str(String::from("!"))),
        ],
    );
    let (out, _) = run_alone(&sect, vec![], 0);
    assert_eq!(out, "!");
}

#[test]
fn own_name_is_bound_under_the_introspection_identifier() {
    let sect = section(
        "WHOAMI",
        vec![],
        vec![Command::Print(Value::Symbol(String::from("JAULA")))],
    );
    let (out, _) = run_alone(&sect, vec![], 0);
    assert_eq!(out, "WHOAMI");
}

#[test]
fn wrong_arity_fails_with_argument_mismatch_and_runs_nothing() {
    let sect = section(
        "TWOARG",
        vec![
            ExpectedParameter { name: String::from("A"), category: ValueCategory::Numeric },
            ExpectedParameter { name: String::from("B"), category: ValueCategory::Textual },
        ],
        vec![Command::Print(Value::Str(String::from("ran")))],
    );
    let (out, r) = run_alone(&sect, vec![Value::Integer(1)], 0);
    match r {
        Err(RunError::ArgumentMismatch(name)) => assert_eq!(name, "TWOARG"),
        _ => panic!("expected ArgumentMismatch"),
    }
    assert_eq!(out, "");
}

#[test]
fn wrong_category_fails_with_argument_mismatch() {
    let sect = section(
        "ONEARG",
        vec![ExpectedParameter { name: String::from("A"), category: ValueCategory::Character }],
        vec![],
    );
    let (_, r) = run_alone(&sect, vec![Value::Integer(1)], 0);
    assert!(matches!(r, Err(RunError::ArgumentMismatch(_))));
    let (_, r2) = run_alone(&sect, vec![Value::Char('q')], 0);
    assert!(matches!(r2, Ok(None)));
}

#[test]
fn matcher_is_all_or_nothing() {
    let expected = vec![
        ExpectedParameter { name: String::from("A"), category: ValueCategory::Numeric },
        ExpectedParameter { name: String::from("B"), category: ValueCategory::Textual },
    ];
    assert!(arguments_match(
        &vec![Value::Float(String::from("1.0")), Value::Str(String::from("s"))],
        &expected,
    ));
    assert!(!arguments_match(
        &vec![Value::Integer(1), Value::Integer(2)],
        &expected,
    ));
    assert!(!arguments_match(&vec![Value::Integer(1)], &expected));
    // an unresolved symbol has no category and never fits
    assert!(!arguments_match(
        &vec![Value::Symbol(String::from("X")), Value::Str(String::from("s"))],
        &expected,
    ));
}

#[test]
fn arguments_bind_under_parameter_names() {
    let sect = section(
        "GREET",
        vec![ExpectedParameter { name: String::from("WHO"), category: ValueCategory::Textual }],
        vec![
            Command::Print(Value::Str(String::from("hi "))),
            Command::Print(Value::Symbol(String::from("WHO"))),
        ],
    );
    let (out, r) = run_alone(&sect, vec![Value::Str(String::from("dev"))], 0);
    assert!(matches!(r, Ok(None)));
    assert_eq!(out, "hi dev");
}

#[test]
fn return_skips_later_commands_and_caller_resumes() {
    let callee = section(
        "EARLY",
        vec![],
        vec![
            Command::Print(Value::Str(String::from("a"))),
            Command::Return,
            Command::Print(Value::Str(String::from("never"))),
        ],
    );
    let caller = section(
        "CALLER",
        vec![],
        vec![
            Command::InvokeSection(String::from("EARLY"), vec![]),
            Command::Print(Value::Str(String::from("b"))),
        ],
    );
    let sections = vec![callee, caller];
    let globals = Frame::new();
    let mut out = String::new();
    let r = sections[1].run(&sections, &globals, &Vec::new(), 0, &mut out);
    assert!(matches!(r, Ok(None)));
    assert_eq!(out, "ab");
}

#[test]
fn top_level_return_yields_the_return_signal() {
    let sect = section("R", vec![], vec![Command::Return]);
    let (_, r) = run_alone(&sect, vec![], 0);
    assert!(matches!(r, Ok(Some(Signal::Return))));
    assert_eq!(exit_status(&r), 0);
}

#[test]
fn terminate_three_levels_deep_stops_everything_with_its_code() {
    let inner = section(
        "INNER",
        vec![],
        vec![
            Command::Terminate(7),
            Command::Print(Value::Str(String::from("after inner"))),
        ],
    );
    let middle = section(
        "MIDDLE",
        vec![],
        vec![
            Command::InvokeSection(String::from("INNER"), vec![]),
            Command::Print(Value::Str(String::from("after middle"))),
        ],
    );
    let outer = section(
        "OUTER",
        vec![],
        vec![
            Command::Print(Value::Str(String::from("begin;"))),
            Command::InvokeSection(String::from("MIDDLE"), vec![]),
            Command::Print(Value::Str(String::from("after outer"))),
        ],
    );
    let sections = vec![inner, middle, outer];
    let globals = Frame::new();
    let mut out = String::new();
    let r = sections[2].run(&sections, &globals, &Vec::new(), 0, &mut out);
    assert!(matches!(r, Ok(Some(Signal::Terminate(7)))));
    assert_eq!(out, "begin;");
    assert_eq!(exit_status(&r), 7);
}

#[test]
fn missing_section_is_reported_by_name() {
    let caller = section(
        "CALLER",
        vec![],
        vec![Command::InvokeSection(String::from("GONE"), vec![])],
    );
    let (_, r) = run_alone(&caller, vec![], 0);
    match r {
        Err(RunError::MissingSection(name)) => assert_eq!(name, "GONE"),
        _ => panic!("expected MissingSection"),
    }
}

#[test]
fn self_recursion_hits_the_ceiling() {
    let sect = section(
        "LOOPY",
        vec![],
        vec![Command::InvokeSection(String::from("LOOPY"), vec![])],
    );
    let sections = vec![sect];
    let globals = Frame::new();
    let mut out = String::new();
    let r = sections[0].run(&sections, &globals, &Vec::new(), 0, &mut out);
    match r {
        Err(RunError::RecursionLimitExceeded(name)) => assert_eq!(name, "LOOPY"),
        _ => panic!("expected RecursionLimitExceeded"),
    }
}

#[test]
fn depth_just_below_the_ceiling_succeeds_and_at_it_fails() {
    let sect = section("EDGE", vec![], vec![Command::Print(Value::Integer(1))]);
    let (out, ok) = run_alone(&sect, vec![], MAX_RECURSION - 1);
    assert!(matches!(ok, Ok(None)));
    assert_eq!(out, "1");
    let (out2, over) = run_alone(&sect, vec![], MAX_RECURSION);
    match over {
        Err(RunError::RecursionLimitExceeded(name)) => assert_eq!(name, "EDGE"),
        _ => panic!("expected RecursionLimitExceeded"),
    }
    assert_eq!(out2, "");
}

#[test]
fn symbol_arguments_are_resolved_in_the_caller_scope() {
    let callee = section(
        "SHOWN",
        vec![ExpectedParameter { name: String::from("V"), category: ValueCategory::Numeric }],
        vec![Command::Print(Value::Symbol(String::from("V")))],
    );
    let caller = section(
        "CALLER",
        vec![],
        vec![
            Command::Declare(String::from("LOCAL"), Value::Integer(31), false),
            Command::InvokeSection(
                String::from("SHOWN"),
                vec![Value::Symbol(String::from("LOCAL"))],
            ),
        ],
    );
    let sections = vec![callee, caller];
    let globals = Frame::new();
    let mut out = String::new();
    let r = sections[1].run(&sections, &globals, &Vec::new(), 0, &mut out);
    assert!(matches!(r, Ok(None)));
    assert_eq!(out, "31");
}

#[test]
fn duplicate_declaration_inside_a_run_is_fatal() {
    let sect = section(
        "DUP",
        vec![],
        vec![
            Command::Declare(String::from("X"), Value::Integer(1), false),
            Command::Declare(String::from("X"), Value::Integer(2), false),
            Command::Print(Value::Str(String::from("never"))),
        ],
    );
    let (out, r) = run_alone(&sect, vec![], 0);
    match r {
        Err(RunError::DuplicateDeclaration(name)) => assert_eq!(name, "X"),
        _ => panic!("expected DuplicateDeclaration"),
    }
    assert_eq!(out, "");
}

#[test]
fn modify_updates_and_constant_violation_is_fatal() {
    let sect = section(
        "MODS",
        vec![],
        vec![
            Command::Declare(String::from("X"), Value::Integer(1), false),
            Command::Modify(String::from("X"), Value::Integer(8)),
            Command::Print(Value::Symbol(String::from("X"))),
        ],
    );
    let (out, r) = run_alone(&sect, vec![], 0);
    assert!(matches!(r, Ok(None)));
    assert_eq!(out, "8");

    let constant = section(
        "FROZEN",
        vec![],
        vec![
            Command::Declare(String::from("K"), Value::Integer(1), true),
            Command::Modify(String::from("K"), Value::Integer(2)),
        ],
    );
    let (_, r2) = run_alone(&constant, vec![], 0);
    match r2 {
        Err(RunError::ConstantViolation(name)) => assert_eq!(name, "K"),
        _ => panic!("expected ConstantViolation"),
    }

    let absent = section(
        "ABSENT",
        vec![],
        vec![Command::Modify(String::from("NOPE"), Value::Integer(2))],
    );
    let (_, r3) = run_alone(&absent, vec![], 0);
    match r3 {
        Err(RunError::NotFound(name)) => assert_eq!(name, "NOPE"),
        _ => panic!("expected NotFound"),
    }
}

#[test]
fn exit_status_maps_every_outcome() {
    assert_eq!(exit_status(&Ok(None)), 0);
    assert_eq!(exit_status(&Ok(Some(Signal::Return))), 0);
    assert_eq!(exit_status(&Ok(Some(Signal::Terminate(42)))), 42);
    assert_eq!(
        exit_status(&Err(RunError::MissingSection(String::from("S")))),
        1
    );
}

#[test]
fn value_categories() {
    assert_eq!(Value::Integer(3).category(), Some(ValueCategory::Numeric));
    assert_eq!(
        Value::Float(String::from("1.5")).category(),
        Some(ValueCategory::Numeric)
    );
    assert_eq!(Value::Char('c').category(), Some(ValueCategory::Character));
    assert_eq!(
        Value::Str(String::from("s")).category(),
        Some(ValueCategory::Textual)
    );
    assert_eq!(Value::Symbol(String::from("n")).category(), None);
}
