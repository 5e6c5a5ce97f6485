//! The stage driver: files are loaded, the text is parsed, the program is
//! lowered, the result is linked, in this order and no other.
//!
//! The machine decides and computes. Reading the disk before a stage and
//! writing what a stage produced is the work of whoever drives it.

use vstd::prelude::*;
use crate::code_generator::Compiler;
use crate::grammar;
use crate::lowering::{CompileError, CompilerView, lower_function};
use crate::parser::{Parser, parse_program};
use crate::state_machine::data::{CompilerData, CompilerDataView, Config, paths_view};
use crate::state_machine::file_tree::{
    FileTree,
    TreeView,
    can_insert,
    has_source_extension,
    insert_file,
    is_source_file,
    lemma_insert_keeps_printable,
    placement,
    printable,
    skeleton,
    strings_view,
};

pub mod data;
pub mod file_tree;

verus! {

/// Where the machine stands.
#[derive(Debug, PartialEq, Eq, Clone, Copy, Structural)]
pub enum State {
    Init,
    FilesLoading,
    Parsing,
    LlvmIrGeneration,
    Linking,
    Done,
}

/// What the machine is asked to do next.
#[derive(Debug, PartialEq, Eq, Clone, Copy, Structural)]
pub enum Event {
    LoadFiles,
    Parse,
    LlvmIrGen,
    Link,
}

/// Why the machine did not do what an event asked for.
#[derive(Debug, PartialEq, Eq, Clone, Copy, Structural)]
pub enum MachineError {
    /// The event is not the one that the state waits for.
    InvalidTransition,
    /// A path leads through a name that another path has as a file.
    ConflictingPaths,
    /// The source text is no program.
    SyntaxError,
    /// The first function of the program could not be lowered.
    Lowering(CompileError),
}

/// The machine: its state and what its stages work on.
pub struct CompilerMachine {
    state: State,
    data: CompilerData,
}

/// The machine as a mathematical value.
pub struct MachineView {
    pub state: State,
    pub data: CompilerDataView,
}

impl View for CompilerMachine {
    type V = MachineView;

    closed spec fn view(&self) -> MachineView {
        MachineView { state: self.state, data: self.data@ }
    }
}

/// The state in which the stage of the event runs, where the event is the
/// one that the state waits for.
pub open spec fn stage(state: State, event: Event) -> Option<State> {
    match (state, event) {
        (State::Init, Event::LoadFiles) => Some(State::FilesLoading),
        (State::FilesLoading, Event::Parse) => Some(State::Parsing),
        (State::Parsing, Event::LlvmIrGen) => Some(State::LlvmIrGeneration),
        (State::LlvmIrGeneration, Event::Link) => Some(State::Linking),
        _ => None,
    }
}

/// The entries of the tree of the source files among the paths, each
/// inserted in the order of the paths; `None` where one cannot be inserted.
/// A path is a source file where its last component has the extension.
pub open spec fn load(files: Seq<Seq<Seq<char>>>) -> Option<Seq<(Seq<char>, TreeView)>>
    decreases files.len(),
{
    if files.len() == 0 {
        Some(Seq::empty())
    } else {
        match load(files.drop_last()) {
            None => None,
            Some(entries) => {
                let path = files.last();
                if path.len() > 0 && has_source_extension(path.last()) {
                    if can_insert(entries, placement(path).0) {
                        Some(insert_file(entries, placement(path).0, placement(path).1))
                    } else {
                        None
                    }
                } else {
                    Some(entries)
                }
            },
        }
    }
}

/// Whether the machine has what the stage of the event works on: parsing
/// needs a source text, and lowering needs a syntax tree with a function.
/// The other stages, and an event that the state does not wait for, need
/// nothing.
pub open spec fn ready(m: MachineView, event: Event) -> bool {
    match (m.state, event) {
        (State::FilesLoading, Event::Parse) => m.data.code is Some,
        (State::Parsing, Event::LlvmIrGen) => m.data.ast matches Some(program)
            && program.functions.len() > 0,
        _ => true,
    }
}

/// What the machine becomes when it gets an event that it is ready for, and
/// whether the stage of the event succeeded.
///
/// An event that the state does not wait for changes nothing. Otherwise the
/// machine enters the state of the stage and the stage runs. A stage that
/// fails leaves the machine in its state. The last stage, linking, leaves
/// the machine done.
pub open spec fn step(m: MachineView, event: Event) -> (MachineView, Result<(), MachineError>) {
    match stage(m.state, event) {
        None => (m, Err(MachineError::InvalidTransition)),
        Some(state) => {
            let entered = MachineView { state, ..m };
            match event {
                Event::LoadFiles => match load(m.data.files) {
                    Some(entries) => (
                        MachineView {
                            data: CompilerDataView {
                                listing: Some(skeleton(TreeView::Directory(entries))),
                                ..m.data
                            },
                            ..entered
                        },
                        Ok(()),
                    ),
                    None => (entered, Err(MachineError::ConflictingPaths)),
                },
                Event::Parse => match grammar::program(m.data.code->Some_0) {
                    Some(program) => (
                        MachineView {
                            data: CompilerDataView { ast: Some(program), ..m.data },
                            ..entered
                        },
                        Ok(()),
                    ),
                    None => (entered, Err(MachineError::SyntaxError)),
                },
                Event::LlvmIrGen => {
                    let (lowered, r) = lower_function(
                        CompilerView::idle(m.data.module),
                        (m.data.ast->Some_0).functions[0],
                    );
                    match r {
                        Ok(_) => (
                            MachineView {
                                data: CompilerDataView { module: lowered.module, ..m.data },
                                ..entered
                            },
                            Ok(()),
                        ),
                        Err(err) => (entered, Err(MachineError::Lowering(err))),
                    }
                },
                Event::Link => (MachineView { state: State::Done, ..m }, Ok(())),
            }
        },
    }
}

impl CompilerMachine {
    /// A machine in its first state.
    pub fn new(config: Config) -> (r: Self)
        ensures
            r@.state == State::Init,
            r@.data == CompilerDataView::fresh(config.project_directory@),
    {
        CompilerMachine { state: State::Init, data: CompilerData::new(config) }
    }

    /// Where the machine stands.
    pub fn state(&self) -> (r: State)
        ensures
            r == self@.state,
    {
        self.state
    }

    /// What the stages work on and have produced.
    pub fn data(&self) -> (r: &CompilerData)
        ensures
            r@ == self@.data,
    {
        &self.data
    }

    /// Hands the machine the files that were found below the source
    /// directory.
    pub fn set_files(&mut self, files: Vec<Vec<String>>)
        ensures
            final(self)@ == (MachineView {
                data: CompilerDataView { files: paths_view(files@), ..old(self)@.data },
                ..old(self)@
            }),
    {
        self.data.files = files;
    }

    /// Hands the machine the source text.
    pub fn set_code(&mut self, code: String)
        ensures
            final(self)@ == (MachineView {
                data: CompilerDataView { code: Some(code@), ..old(self)@.data },
                ..old(self)@
            }),
    {
        self.data.code = Some(code);
    }

    /// Whether the machine has what the stage of the event works on.
    pub fn is_ready(&self, event: Event) -> (r: bool)
        ensures
            r == ready(self@, event),
    {
        match (self.state, event) {
            (State::FilesLoading, Event::Parse) => self.data.code.is_some(),
            (State::Parsing, Event::LlvmIrGen) => match &self.data.ast {
                Some(program) => program.functions.len() > 0,
                None => false,
            },
            _ => true,
        }
    }

    /// Gives the machine an event that it is ready for.
    pub fn accept(&mut self, event: Event) -> (r: Result<(), MachineError>)
        requires
            ready(old(self)@, event),
        ensures
            (final(self)@, r) == step(old(self)@, event),
    {
        match (self.state, event) {
            (State::Init, Event::LoadFiles) => {
                self.state = State::FilesLoading;
                match self.load_files() {
                    Ok(tree) => {
                        self.data.listing = Some(tree.build_program());
                        Ok(())
                    },
                    Err(err) => Err(err),
                }
            },
            (State::FilesLoading, Event::Parse) => {
                self.state = State::Parsing;
                self.parse()
            },
            (State::Parsing, Event::LlvmIrGen) => {
                self.state = State::LlvmIrGeneration;
                self.llvm_ir_gen()
            },
            (State::LlvmIrGeneration, Event::Link) => {
                self.state = State::Linking;
                match self.linking() {
                    Ok(_) => {
                        self.state = State::Done;
                        Ok(())
                    },
                    Err(err) => Err(err),
                }
            },
            _ => Err(MachineError::InvalidTransition),
        }
    }

    /// The tree of the source files among the files of the machine.
    fn load_files(&self) -> (r: Result<FileTree, MachineError>)
        ensures
            match r {
                Ok(tree) => load(self@.data.files) == Some(tree@) && printable(
                    TreeView::Directory(tree@),
                ),
                Err(err) => load(self@.data.files) is None && err == MachineError::ConflictingPaths,
            },
    {
        let ghost all = self@.data.files;
        let mut tree = FileTree::new(self.data.config.project_directory.clone());
        let mut i: usize = 0;
        assert(all.take(0) =~= Seq::empty());
        while i < self.data.files.len()
            invariant
                i <= self.data.files.len(),
                all == paths_view(self.data.files@),
                load(all.take(i as int)) == Some(tree@),
                printable(TreeView::Directory(tree@)),
            decreases self.data.files.len() - i,
        {
            let path = &self.data.files[i];
            proof {
                assert(all.take(i + 1).drop_last() =~= all.take(i as int));
                assert(all.take(i + 1).last() == strings_view(path@));
            }
            if path.len() > 0 && is_source_file(path[path.len() - 1].as_str()) {
                proof {
                    let parts = strings_view(path@);
                    assert(parts.last() == path[path.len() - 1]@);
                    assert(placement(parts).1 == parts.last());
                    lemma_insert_keeps_printable(tree@, placement(parts).0, placement(parts).1);
                }
                if tree.can_place(path) {
                    tree.insert(path);
                } else {
                    proof {
                        lemma_load_stops(all, i + 1);
                    }
                    return Err(MachineError::ConflictingPaths);
                }
            }
            i += 1;
        }
        assert(all.take(i as int) =~= all);
        Ok(tree)
    }

    /// Parses the source text of the machine into its syntax tree.
    fn parse(&mut self) -> (r: Result<(), MachineError>)
        requires
            old(self)@.data.code is Some,
        ensures
            final(self)@.state == old(self)@.state,
            match grammar::program(old(self)@.data.code->Some_0) {
                Some(program) => r == Ok::<(), MachineError>(()) && final(self)@.data == (
                CompilerDataView { ast: Some(program), ..old(self)@.data }),
                None => r == Err::<(), MachineError>(MachineError::SyntaxError) && final(self)@
                    == old(self)@,
            },
    {
        let parser = Parser::new(self.data.code.as_ref().unwrap().clone());
        match parse_program(&parser) {
            Some(program) => {
                self.data.ast = Some(program);
                Ok(())
            },
            None => Err(MachineError::SyntaxError),
        }
    }

    /// Lowers the first function of the syntax tree into the module.
    fn llvm_ir_gen(&mut self) -> (r: Result<(), MachineError>)
        requires
            old(self)@.data.ast matches Some(program) && program.functions.len() > 0,
        ensures
            final(self)@.state == old(self)@.state,
            ({
                let (lowered, result) = lower_function(
                    CompilerView::idle(old(self)@.data.module),
                    (old(self)@.data.ast->Some_0).functions[0],
                );
                match result {
                    Ok(_) => r == Ok::<(), MachineError>(()) && final(self)@.data == (
                    CompilerDataView { module: lowered.module, ..old(self)@.data }),
                    Err(err) => r == Err::<(), MachineError>(MachineError::Lowering(err))
                        && final(self)@ == old(self)@,
                }
            }),
    {
        let program = self.data.ast.as_ref().unwrap();
        match Compiler::compile(&mut self.data.module, program) {
            Ok(_) => Ok(()),
            Err(err) => Err(MachineError::Lowering(err)),
        }
    }

    /// Links what the stages before have produced. There is nothing to link
    /// yet, so this always succeeds.
    pub fn linking(&self) -> (r: Result<(), MachineError>)
        ensures
            r is Ok,
    {
        Ok(())
    }
}

/// Once a path among the first `n` cannot be inserted, the whole list
/// cannot be loaded.
proof fn lemma_load_stops(files: Seq<Seq<Seq<char>>>, n: int)
    requires
        0 <= n <= files.len(),
        load(files.take(n)) is None,
    ensures
        load(files) is None,
    decreases files.len(),
{
    if n == files.len() {
        assert(files.take(n) =~= files);
    } else {
        assert(files.drop_last().take(n) =~= files.take(n));
        lemma_load_stops(files.drop_last(), n);
    }
}

} // verus!
