//! Loading parsed units into the registry, frame-level variable operations,
//! and the program entry path with its bootstrap bindings.

use sectvm::frame::Frame;
use sectvm::interpreter::{Environment, EnvironmentOptions};
use sectvm::section::{Command, ConstDecl, ParsedSection, Section, Unit};
use sectvm::signal::{exit_status, RunError, Signal};
use sectvm::value::Value;
use sectvm::variable::Variable;

fn parsed(name: &str, lines: Vec<Command>) -> ParsedSection {
    ParsedSection { name: String::from(name), param_list: vec![], lines }
}

#[test]
fn options_defaults_and_setters() {
    let mut opts = EnvironmentOptions::new();
    assert_eq!(opts.default_section(), "SHOW");
    assert!(!opts.verbose());
    opts.set_verbose(true);
    assert!(opts.verbose());
    opts.set_default_section(String::from("MAIN"));
    assert_eq!(opts.default_section(), "MAIN");
}

#[test]
fn frame_declares_sequential_slots_and_reports_duplicates() {
    let mut frame = Frame::new();
    assert_eq!(frame.len(), 0);
    let a0 = frame
        .declare(Variable::from(String::from("A"), Value::Integer(1), false))
        .unwrap();
    let a1 = frame
        .declare(Variable::from(String::from("B"), Value::Integer(2), false))
        .unwrap();
    assert_eq!(a0, 0);
    assert_eq!(a1, 1);
    // a duplicate fails and the first declaration remains intact
    let dup = frame.declare(Variable::from(String::from("A"), Value::Integer(9), true));
    match dup {
        Err(RunError::DuplicateDeclaration(name)) => assert_eq!(name, "A"),
        _ => panic!("expected DuplicateDeclaration"),
    }
    let kept = frame.resolve(&String::from("A")).unwrap();
    assert!(matches!(kept.value, Value::Integer(1)));
    assert_eq!(kept.address, 0);
    assert!(!kept.constant);
    assert_eq!(frame.len(), 2);
}

#[test]
fn frame_modify_preserves_slot_and_refuses_constants() {
    let mut frame = Frame::new();
    frame
        .declare(Variable::from(String::from("N"), Value::Integer(1), false))
        .unwrap();
    frame
        .declare(Variable::from(String::from("K"), Value::Integer(5), true))
        .unwrap();
    assert!(frame.modify(&String::from("N"), Value::Integer(7)).is_ok());
    let n = frame.resolve(&String::from("N")).unwrap();
    assert!(matches!(n.value, Value::Integer(7)));
    assert_eq!(n.address, 0);
    let frozen = frame.modify(&String::from("K"), Value::Integer(6));
    match frozen {
        Err(RunError::ConstantViolation(name)) => assert_eq!(name, "K"),
        _ => panic!("expected ConstantViolation"),
    }
    let k = frame.resolve(&String::from("K")).unwrap();
    assert!(matches!(k.value, Value::Integer(5)));
    let missing = frame.modify(&String::from("Z"), Value::Integer(0));
    assert!(matches!(missing, Err(RunError::NotFound(_))));
}

#[test]
fn resolve_of_an_unbound_name_is_a_distinct_not_found() {
    let frame = Frame::new();
    assert!(frame.resolve(&String::from("ANY")).is_none());
    let env = Environment::new(EnvironmentOptions::new());
    assert!(env.get_var(&String::from("ANY")).is_none());
    // a found variable carries the queried identifier, never a placeholder
    let mut frame2 = Frame::new();
    frame2
        .declare(Variable::from(String::from("REAL"), Value::Integer(3), false))
        .unwrap();
    let got = frame2.resolve(&String::from("REAL")).unwrap();
    assert_eq!(got.id, "REAL");
    assert!(frame2.resolve(&String::from("")).is_none());
}

#[test]
fn variable_modify_respects_constancy() {
    let mut v = Variable::from(String::from("X"), Value::Integer(1), false);
    assert!(v.modify(Value::Integer(2)).is_ok());
    assert!(matches!(v.value, Value::Integer(2)));
    let mut c = Variable::from(String::from("C"), Value::Integer(1), true);
    assert!(matches!(
        c.modify(Value::Integer(2)),
        Err(RunError::ConstantViolation(_))
    ));
    assert!(matches!(c.value, Value::Integer(1)));
}

#[test]
fn section_standalone_variable_operations() {
    let mut sect = Section::from_parser(parsed("S", vec![]), 0);
    sect.decl_var(Variable::from(String::from("A"), Value::Integer(1), false))
        .unwrap();
    assert!(matches!(
        sect.decl_var(Variable::from(String::from("A"), Value::Integer(2), false)),
        Err(RunError::DuplicateDeclaration(_))
    ));
    assert!(sect.mod_var(&String::from("A"), Value::Integer(3)).is_ok());
    let a = sect.get_var(&String::from("A")).unwrap();
    assert!(matches!(a.value, Value::Integer(3)));
    assert!(sect.get_var(&String::from("B")).is_none());
    // declare-or-modify declares when absent and modifies when present
    sect.decl_or_mod(&String::from("B"), Value::Integer(4)).unwrap();
    sect.decl_or_mod(&String::from("B"), Value::Integer(5)).unwrap();
    let b = sect.get_var(&String::from("B")).unwrap();
    assert!(matches!(b.value, Value::Integer(5)));
    assert_eq!(b.address, 1);
    sect.decl_var(Variable::from(String::from("K"), Value::Integer(0), true))
        .unwrap();
    assert!(matches!(
        sect.decl_or_mod(&String::from("K"), Value::Integer(1)),
        Err(RunError::ConstantViolation(_))
    ));
}

#[test]
fn from_unit_and_load_all_assign_sequential_ids() {
    let unit_a = Unit {
        consts: vec![],
        sects: vec![parsed("A", vec![]), parsed("B", vec![])],
    };
    let unit_b = Unit { consts: vec![], sects: vec![parsed("C", vec![])] };
    let mut vmid: u64 = 10;
    let loaded = Section::from_unit(unit_a, &mut vmid);
    assert_eq!(vmid, 12);
    assert_eq!(loaded.len(), 2);
    assert_eq!(loaded[0].name, "A");
    assert_eq!(loaded[0].id, 10);
    assert_eq!(loaded[1].id, 11);

    let unit_a2 = Unit {
        consts: vec![],
        sects: vec![parsed("A", vec![]), parsed("B", vec![])],
    };
    let all = Section::load_all(vec![unit_a2, unit_b]);
    assert_eq!(all.len(), 3);
    assert_eq!(all[0].name, "A");
    assert_eq!(all[1].name, "B");
    assert_eq!(all[2].name, "C");
    assert_eq!(all[0].id, 0);
    assert_eq!(all[1].id, 1);
    assert_eq!(all[2].id, 2);
}

#[test]
fn interpret_loads_constants_and_sections() {
    let mut env = Environment::new(EnvironmentOptions::new());
    let unit = Unit {
        consts: vec![ConstDecl { identifier: String::from("PI"), value: Value::Float(String::from("3.14")) }],
        sects: vec![parsed(
            "SHOW",
            vec![Command::Print(Value::Symbol(String::from("PI")))],
        )],
    };
    assert!(env.interpret(unit).is_ok());
    let pi = env.get_var(&String::from("PI")).unwrap();
    assert!(pi.constant);
    assert_eq!(pi.address, 0);
    let (out, r) = env.run_section(&String::from("SHOW"), vec![]);
    assert!(matches!(r, Ok(None)));
    assert_eq!(out, "3.14");
}

#[test]
fn interpret_rejects_duplicate_constants_and_sections() {
    let mut env = Environment::new(EnvironmentOptions::new());
    let dup_consts = Unit {
        consts: vec![
            ConstDecl { identifier: String::from("T"), value: Value::Integer(1) },
            ConstDecl { identifier: String::from("T"), value: Value::Integer(2) },
        ],
        sects: vec![],
    };
    assert!(matches!(
        env.interpret(dup_consts),
        Err(RunError::DuplicateDeclaration(_))
    ));

    let mut env2 = Environment::new(EnvironmentOptions::new());
    let dup_sects = Unit {
        consts: vec![],
        sects: vec![parsed("S", vec![]), parsed("S", vec![])],
    };
    match env2.interpret(dup_sects) {
        Err(RunError::DuplicateSection(name)) => assert_eq!(name, "S"),
        _ => panic!("expected DuplicateSection"),
    }
}

#[test]
fn run_section_records_the_last_signal() {
    let mut env = Environment::new(EnvironmentOptions::new());
    let unit = Unit {
        consts: vec![],
        sects: vec![
            parsed("QUIET", vec![]),
            parsed("LOUD", vec![Command::Terminate(3)]),
        ],
    };
    env.interpret(unit).unwrap();
    assert_eq!(env.last_signal(), None);
    let (_, r) = env.run_section(&String::from("LOUD"), vec![]);
    assert!(matches!(r, Ok(Some(Signal::Terminate(3)))));
    assert_eq!(env.last_signal(), Some(Signal::Terminate(3)));
    let (_, r2) = env.run_section(&String::from("QUIET"), vec![]);
    assert!(matches!(r2, Ok(None)));
    assert_eq!(env.last_signal(), None);
    let (_, r3) = env.run_section(&String::from("GONE"), vec![]);
    assert!(matches!(r3, Err(RunError::MissingSection(_))));
    assert_eq!(env.last_signal(), None);
}

#[test]
fn start_program_installs_bootstrap_bindings_and_runs_the_default() {
    let mut env = Environment::new(EnvironmentOptions::new());
    let unit = Unit {
        consts: vec![],
        sects: vec![parsed(
            "SHOW",
            vec![
                Command::Print(Value::Symbol(String::from("CUMPADE"))),
                Command::Print(Value::Char(':')),
                Command::Print(Value::Symbol(String::from("UM"))),
            ],
        )],
    };
    env.interpret(unit).unwrap();
    let (out, r) = env.start_program(String::from("dev"));
    assert!(matches!(r, Ok(None)));
    assert_eq!(out, "dev:1");
    assert_eq!(exit_status(&r), 0);
    let um = env.get_var(&String::from("UM")).unwrap();
    assert!(um.constant);
    assert!(matches!(um.value, Value::Integer(1)));
}

#[test]
fn start_program_honours_a_configured_default_section() {
    let mut opts = EnvironmentOptions::new();
    opts.set_default_section(String::from("ENTRY"));
    let mut env = Environment::new(opts);
    let unit = Unit {
        consts: vec![],
        sects: vec![parsed("ENTRY", vec![Command::Terminate(9)])],
    };
    env.interpret(unit).unwrap();
    let (_, r) = env.start_program(String::from("dev"));
    assert!(matches!(r, Ok(Some(Signal::Terminate(9)))));
    assert_eq!(exit_status(&r), 9);
}

#[test]
fn start_program_without_the_default_section_is_a_missing_section() {
    let mut env = Environment::new(EnvironmentOptions::new());
    let (out, r) = env.start_program(String::from("dev"));
    match &r {
        Err(RunError::MissingSection(name)) => assert_eq!(name, "SHOW"),
        _ => panic!("expected MissingSection"),
    }
    assert_eq!(out, "");
    assert_eq!(exit_status(&r), 1);
}

#[test]
fn start_program_twice_collides_on_the_bootstrap_bindings() {
    let mut env = Environment::new(EnvironmentOptions::new());
    let unit = Unit { consts: vec![], sects: vec![parsed("SHOW", vec![])] };
    env.interpret(unit).unwrap();
    assert!(env.start_program(String::from("dev")).1.is_ok());
    let (_, again) = env.start_program(String::from("dev"));
    assert!(matches!(again, Err(RunError::DuplicateDeclaration(_))));
}

#[test]
fn symbol_argument_resolves_through_the_global_frame() {
    let mut env = Environment::new(EnvironmentOptions::new());
    let unit = Unit {
        consts: vec![ConstDecl { identifier: String::from("LIMIT"), value: Value::Integer(99) }],
        sects: vec![
            ParsedSection {
                name: String::from("TAKES"),
                param_list: vec![sectvm::section::ExpectedParameter {
                    name: String::from("N"),
                    category: sectvm::value::ValueCategory::Numeric,
                }],
                lines: vec![Command::Print(Value::Symbol(String::from("N")))],
            },
            parsed(
                "SHOW",
                vec![Command::InvokeSection(
                    String::from("TAKES"),
                    vec![Value::Symbol(String::from("LIMIT"))],
                )],
            ),
        ],
    };
    env.interpret(unit).unwrap();
    let (out, r) = env.run_section(&String::from("SHOW"), vec![]);
    assert!(matches!(r, Ok(None)));
    assert_eq!(out, "99");
}

#[test]
fn globals_are_visible_but_shadowed_by_the_local_frame() {
    let mut env = Environment::new(EnvironmentOptions::new());
    let unit = Unit {
        consts: vec![ConstDecl { identifier: String::from("G"), value: Value::Integer(1) }],
        sects: vec![parsed(
            "SHOW",
            vec![
                Command::Print(Value::Symbol(String::from("G"))),
                Command::Declare(String::from("G"), Value::Integer(2), false),
                Command::Print(Value::Symbol(String::from("G"))),
            ],
        )],
    };
    env.interpret(unit).unwrap();
    let (out, r) = env.run_section(&String::from("SHOW"), vec![]);
    assert!(matches!(r, Ok(None)));
    assert_eq!(out, "12");
}
