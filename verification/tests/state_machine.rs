use ac_compiler::internal_representations::gast::{Expr, Name, Stmt};
use ac_compiler::ir::{Instruction, Value};
use ac_compiler::lowering::CompileError;
use ac_compiler::state_machine::data::{CompilerData, Config};
use ac_compiler::state_machine::{CompilerMachine, Event, MachineError, State};

fn machine() -> CompilerMachine {
    CompilerMachine::new(Config { project_directory: "project".to_string() })
}

fn files(paths: &[&[&str]]) -> Vec<Vec<String>> {
    paths.iter().map(|p| p.iter().map(|c| c.to_string()).collect()).collect()
}

#[test]
fn fresh_data_holds_nothing_but_the_configuration() {
    let data = CompilerData::new(Config { project_directory: "here".to_string() });
    assert_eq!(data.config.project_directory, "here");
    assert!(data.files.is_empty());
    assert!(data.listing.is_none());
    assert!(data.code.is_none());
    assert!(data.ast.is_none());
    assert!(data.module.functions.is_empty());
}

#[test]
fn the_stages_run_in_their_order() {
    let mut m = machine();
    assert_eq!(m.state(), State::Init);
    m.set_files(files(&[&["main.ac"], &["notes.txt"], &["lib", "util.ac"]]));
    m.set_code("fn main() { return 42; }".to_string());
    assert_eq!(m.accept(Event::LoadFiles), Ok(()));
    assert_eq!(m.state(), State::FilesLoading);
    assert_eq!(
        m.data().listing.as_deref(),
        Some("mod main_module {\nmod  {\nmod main_module {\nmod main {\n}\nmod lib {\nmod main_module {\nmod util {\n}\n}\n}\n}\n}\n}\n")
    );
    assert_eq!(m.accept(Event::Parse), Ok(()));
    assert_eq!(m.state(), State::Parsing);
    assert_eq!(
        m.data().ast.as_ref().unwrap().functions[0].body,
        vec![Stmt::Return(Expr::IntLiteral(42))]
    );
    assert_eq!(m.accept(Event::LlvmIrGen), Ok(()));
    assert_eq!(m.state(), State::LlvmIrGeneration);
    assert_eq!(m.data().module.functions.len(), 1);
    assert_eq!(m.data().module.functions[0].name, Name::new("main".to_string()));
    assert_eq!(
        m.data().module.functions[0].blocks[0].instructions,
        vec![Instruction::Return { value: Value::Const(42) }]
    );
    assert_eq!(m.accept(Event::Link), Ok(()));
    assert_eq!(m.state(), State::Done);
    assert_eq!(m.linking(), Ok(()));
}

#[test]
fn an_event_out_of_order_changes_nothing() {
    let all = [Event::LoadFiles, Event::Parse, Event::LlvmIrGen, Event::Link];
    let mut m = machine();
    for event in [Event::Parse, Event::LlvmIrGen, Event::Link] {
        assert_eq!(m.accept(event), Err(MachineError::InvalidTransition));
        assert_eq!(m.state(), State::Init);
    }
    assert_eq!(m.accept(Event::LoadFiles), Ok(()));
    for event in [Event::LoadFiles, Event::LlvmIrGen, Event::Link] {
        assert_eq!(m.accept(event), Err(MachineError::InvalidTransition));
        assert_eq!(m.state(), State::FilesLoading);
    }
    m.set_code("fn f() { return 0; }".to_string());
    assert_eq!(m.accept(Event::Parse), Ok(()));
    for event in [Event::LoadFiles, Event::Parse, Event::Link] {
        assert_eq!(m.accept(event), Err(MachineError::InvalidTransition));
        assert_eq!(m.state(), State::Parsing);
    }
    assert_eq!(m.accept(Event::LlvmIrGen), Ok(()));
    for event in [Event::LoadFiles, Event::Parse, Event::LlvmIrGen] {
        assert_eq!(m.accept(event), Err(MachineError::InvalidTransition));
        assert_eq!(m.state(), State::LlvmIrGeneration);
    }
    assert_eq!(m.accept(Event::Link), Ok(()));
    for event in all {
        assert_eq!(m.accept(event), Err(MachineError::InvalidTransition));
        assert_eq!(m.state(), State::Done);
    }
}

#[test]
fn a_stage_that_fails_leaves_the_machine_in_its_state() {
    let mut m = machine();
    assert_eq!(m.accept(Event::LoadFiles), Ok(()));
    assert_eq!(m.data().listing.as_deref(), Some("mod main_module {\n}\n"));
    m.set_code("fn main() { return 1 }".to_string());
    assert_eq!(m.accept(Event::Parse), Err(MachineError::SyntaxError));
    assert_eq!(m.state(), State::Parsing);
    // Without a tree the machine is not ready to lower.
    assert!(!m.is_ready(Event::LlvmIrGen));
    // An event out of order needs nothing, and is refused.
    assert!(m.is_ready(Event::Parse));
    assert_eq!(m.accept(Event::Parse), Err(MachineError::InvalidTransition));
}

#[test]
fn a_stage_is_ready_when_it_has_what_it_works_on() {
    let mut m = machine();
    for event in [Event::LoadFiles, Event::Parse, Event::LlvmIrGen, Event::Link] {
        assert!(m.is_ready(event));
    }
    assert_eq!(m.accept(Event::LoadFiles), Ok(()));
    assert!(!m.is_ready(Event::Parse));
    assert!(m.is_ready(Event::LoadFiles));
    m.set_code("fn f() { return 0; }".to_string());
    assert!(m.is_ready(Event::Parse));
    assert_eq!(m.accept(Event::Parse), Ok(()));
    assert!(m.is_ready(Event::LlvmIrGen));
    assert_eq!(m.accept(Event::LlvmIrGen), Ok(()));
    assert!(m.is_ready(Event::Link));
}

#[test]
fn a_text_that_is_no_program_is_a_syntax_error() {
    let mut m = machine();
    m.set_code("fn main() { return }".to_string());
    assert_eq!(m.accept(Event::LoadFiles), Ok(()));
    assert_eq!(m.accept(Event::Parse), Err(MachineError::SyntaxError));
    assert!(m.data().ast.is_none());
}

#[test]
fn a_program_without_functions_is_not_ready_to_be_lowered() {
    let mut m = machine();
    m.set_code("   ".to_string());
    assert_eq!(m.accept(Event::LoadFiles), Ok(()));
    assert_eq!(m.accept(Event::Parse), Ok(()));
    assert!(m.data().ast.as_ref().unwrap().functions.is_empty());
    assert!(!m.is_ready(Event::LlvmIrGen));
}

#[test]
fn a_lowering_failure_is_handed_on_and_leaves_the_module_empty() {
    let mut m = machine();
    m.set_code("fn main() { return nowhere; }".to_string());
    assert_eq!(m.accept(Event::LoadFiles), Ok(()));
    assert_eq!(m.accept(Event::Parse), Ok(()));
    assert_eq!(
        m.accept(Event::LlvmIrGen),
        Err(MachineError::Lowering(CompileError::UnresolvedSymbol))
    );
    assert!(m.data().module.functions.is_empty());
    assert_eq!(m.state(), State::LlvmIrGeneration);
}

#[test]
fn paths_that_conflict_cannot_be_loaded() {
    let mut m = machine();
    m.set_files(files(&[&["a.ac"], &["a.ac", "b.ac"]]));
    assert_eq!(m.accept(Event::LoadFiles), Err(MachineError::ConflictingPaths));
    assert_eq!(m.state(), State::FilesLoading);
    assert!(m.data().listing.is_none());
}

#[test]
fn files_without_the_extension_are_left_out() {
    let mut m = machine();
    m.set_files(files(&[&["a.rs"], &[], &[".ac"], &["dir.ac", "readme"], &["x", "y.ac"]]));
    assert_eq!(m.accept(Event::LoadFiles), Ok(()));
    assert_eq!(
        m.data().listing.as_deref(),
        Some("mod main_module {\nmod  {\nmod main_module {\nmod x {\nmod main_module {\nmod y {\n}\n}\n}\n}\n}\n}\n")
    );
}
