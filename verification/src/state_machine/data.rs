//! What the compiler machine works on: the configuration, what the driver
//! found on disk, and what each stage has produced.

use vstd::prelude::*;
use crate::internal_representations::gast::{Program, ProgramView};
use crate::ir::{LoweredFunctionView, IrModule};
use crate::state_machine::file_tree::strings_view;

verus! {

/// The configuration of a run: the directory of the project.
pub struct Config {
    pub project_directory: String,
}

/// What the stages of the machine work on and produce.
pub struct CompilerData {
    pub config: Config,
    /// The files below the source directory, each by the components of its
    /// path from there.
    pub files: Vec<Vec<String>>,
    /// The module skeleton of the source files, once the files are loaded.
    pub listing: Option<String>,
    /// The source text.
    pub code: Option<String>,
    /// The syntax tree, once the text is parsed.
    pub ast: Option<Program>,
    /// The lowered functions.
    pub module: IrModule,
}

/// The data of the machine as a mathematical value.
pub struct CompilerDataView {
    pub project_directory: Seq<char>,
    pub files: Seq<Seq<Seq<char>>>,
    pub listing: Option<Seq<char>>,
    pub code: Option<Seq<char>>,
    pub ast: Option<ProgramView>,
    pub module: Seq<LoweredFunctionView>,
}

/// The views of a sequence of paths, in order.
pub open spec fn paths_view(paths: Seq<Vec<String>>) -> Seq<Seq<Seq<char>>> {
    Seq::new(paths.len(), |i: int| strings_view(paths[i]@))
}

impl View for CompilerData {
    type V = CompilerDataView;

    open spec fn view(&self) -> CompilerDataView {
        CompilerDataView {
            project_directory: self.config.project_directory@,
            files: paths_view(self.files@),
            listing: match self.listing {
                Some(text) => Some(text@),
                None => None,
            },
            code: match self.code {
                Some(text) => Some(text@),
                None => None,
            },
            ast: match self.ast {
                Some(program) => Some(program@),
                None => None,
            },
            module: self.module@,
        }
    }
}

impl CompilerDataView {
    /// The data of a machine that has done nothing yet: no files, no text,
    /// no tree and an empty module.
    pub open spec fn fresh(project_directory: Seq<char>) -> CompilerDataView {
        CompilerDataView {
            project_directory,
            files: Seq::empty(),
            listing: None,
            code: None,
            ast: None,
            module: Seq::empty(),
        }
    }
}

impl CompilerData {
    /// The data of a machine that has done nothing yet.
    pub fn new(config: Config) -> (r: Self)
        ensures
            r@ == CompilerDataView::fresh(config.project_directory@),
    {
        let r = CompilerData {
            config,
            files: Vec::new(),
            listing: None,
            code: None,
            ast: None,
            module: IrModule::new(),
        };
        assert(r@.files =~= Seq::empty());
        r
    }
}

} // verus!
