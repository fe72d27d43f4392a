//! The compiler as its users see it.

use crate::config;
use crate::driver::Driver;
use crate::error::{CompilerError, InputError, IoFailureView};
use crate::fs::{FsComponent, FsPath, Listing, Part};
use crate::hir;
use crate::session::{discovered, Session, StoreView};
use std::sync::Arc;
use vstd::prelude::*;
use vstd::slice::slice_to_vec;

verus! {

/// Writes generated code below a root directory, one file for each stage.
pub struct DefaultWriter {
    pub root: FsPath,
}

impl DefaultWriter {
    /// A writer that writes below `root`.
    pub fn new(root: FsPath) -> (writer: DefaultWriter)
        ensures
            writer.root == root,
    {
        DefaultWriter { root }
    }

    /// The file that the code of a stage is written to: the file of the
    /// stage in the root directory.
    pub fn target(&self, target: &config::Target, stage: &config::ShaderStage) -> (file: FsPath)
        ensures
            file@ == self.root@.push(Part::Normal(stage.file_name_bytes())),
    {
        let mut file = self.root.clone();
        let name = slice_to_vec(stage.suffix().as_bytes());
        file.components.push(FsComponent::Normal(name));
        assert(file@ =~= self.root@.push(Part::Normal(stage.file_name_bytes())));
        file
    }
}

/// The back end that generates GLSL.
pub struct GlslBackend;

impl GlslBackend {
    fn new() -> GlslBackend {
        GlslBackend
    }
}

/// Entry point for dynamic runtime use.
pub struct Compiler {
    backend: GlslBackend,
    driver: Driver,
    session: Session,
}

/// The module tree after the inputs from `from` on were fed, one after the
/// other up to the first that fails, and the failure of that one.
pub open spec fn fed(store: StoreView, inputs: Seq<(config::Input, Listing)>, from: int) -> (
    StoreView,
    Option<IoFailureView>,
)
    decreases inputs.len() - from,
{
    if from < 0 || from >= inputs.len() {
        (store, None)
    } else {
        match inputs[from].0 {
            config::Input::Path(path) => {
                let (next, failure) = discovered(store, path@, inputs[from].1);
                if failure is Some {
                    (next, failure)
                } else {
                    fed(next, inputs, from + 1)
                }
            },
        }
    }
}

impl Compiler {
    /// The module tree of the compiler.
    pub closed spec fn store(&self) -> StoreView {
        self.session.store()
    }

    /// Begin a new compiler session.
    pub fn open(_config: config::Config) -> (compiler: Compiler)
        ensures
            compiler.store().roots.len() == 0,
            compiler.store().modules == Map::<crate::session::Names, Seq<Part>>::empty(),
    {
        let backend = GlslBackend::new();
        let driver = Driver::new();
        let session = Session::new();
        Compiler { backend, driver, session }
    }

    /// Feed the compiler a set of inputs, each with what was found in it.
    /// The first input that cannot be registered stops the feeding.
    pub fn feed(&mut self, inputs: &[(config::Input, Listing)]) -> (r: Result<(), CompilerError>)
        ensures
            final(self).store() == fed(old(self).store(), inputs@, 0).0,
            match fed(old(self).store(), inputs@, 0).1 {
                Some(failure) => r matches Err(CompilerError::Input(InputError::Io { source }))
                    && source@ == failure,
                None => r is Ok,
            },
    {
        let mut i: usize = 0;
        while i < inputs.len()
            invariant
                i <= inputs@.len(),
                fed(self.store(), inputs@, i as int) == fed(old(self).store(), inputs@, 0),
            decreases inputs@.len() - i,
        {
            match self.session.register_input(&inputs[i].0, &inputs[i].1) {
                Ok(()) => {},
                Err(failure) => {
                    return Err(CompilerError::from_io(failure));
                },
            }
            i += 1;
        }
        Ok(())
    }

    /// Declares variables of the environment. They are not used yet.
    pub fn declare(&self, _env: &[(&str, config::EnvVar<&str>)]) {
    }

    /// Query the compiler to generate code or perform analysis.
    pub fn query(&self) -> (queries: Queries<'_>)
        ensures
            queries.compiler == self,
    {
        Queries { compiler: self }
    }

    /// The session of the compiler.
    pub fn session(&self) -> (session: &Session)
        ensures
            session.store() == self.store(),
    {
        &self.session
    }

    /// The driver of the compiler.
    pub fn driver(&self) -> &Driver {
        &self.driver
    }

    fn backend(&self) -> &GlslBackend {
        &self.backend
    }
}

/// The questions that can be put to a compiler.
pub struct Queries<'c> {
    pub compiler: &'c Compiler,
}

impl<'c> Queries<'c> {
    /// The intermediate representation of the given functions: an empty
    /// module, as nothing is lowered yet.
    pub fn hir(&self, _includes: &[&hir::Function]) -> (module: Arc<hir::Module>)
        ensures
            module.len() == 0,
    {
        Arc::new(hir::Module::empty())
    }

    /// Checks that two stages fit together. Nothing is checked yet.
    pub fn validate_pipeline(&self, _vs: &hir::Function, _fs: &hir::Function) {
    }

    /// The back end of the compiler.
    pub fn backend(&self) -> &GlslBackend {
        self.compiler.backend()
    }
}

} // verus!
