//! What a compiler is set up with: its inputs, its variables, its pipeline.

use crate::fs::FsPath;
use vstd::prelude::*;

verus! {

/// The settings of a compiler. There are none yet.
#[derive(Debug, Clone, Copy, PartialEq, Eq, Structural)]
pub struct Config {}

impl Default for Config {
    fn default() -> (config: Config)
        ensures
            config == (Config {  }),
    {
        Config {  }
    }
}

/// Something that yields the settings of a compiler.
pub trait ConfigSource {
    fn read(self) -> Config;
}

impl ConfigSource for Config {
    fn read(self) -> (config: Config)
        ensures
            config == self,
    {
        self
    }
}

/// An input of the compiler.
#[derive(Debug, Clone)]
pub enum Input {
    /// A directory of sources.
    Path(FsPath),
}

/// The value of a variable of the environment.
#[derive(Debug, Clone)]
pub enum EnvVar<S> {
    String(S),
    Integer(i32),
    Bool(bool),
}

/// The language that code is generated in.
#[derive(Debug, Clone, Copy, PartialEq, Eq, Structural)]
pub enum Target {
    Glsl,
}

/// The stage of the pipeline that a shader runs in.
#[derive(Debug, Clone, Copy, PartialEq, Eq, Structural)]
pub enum ShaderStage {
    Vertex,
    Fragment,
}

impl ShaderStage {
    /// The file name of the generated code of a stage.
    pub open spec fn file_name(self) -> Seq<char> {
        match self {
            ShaderStage::Vertex => "vert.glsl"@,
            ShaderStage::Fragment => "frag.glsl"@,
        }
    }

    /// The file name of the generated code of a stage, as bytes.
    pub open spec fn file_name_bytes(self) -> Seq<u8> {
        vstd::utf8::encode_utf8(self.file_name())
    }

    /// The file name that the generated code of the stage is written to.
    pub fn suffix(&self) -> (name: &'static str)
        ensures
            name@ == self.file_name(),
    {
        match self {
            ShaderStage::Fragment => "frag.glsl",
            ShaderStage::Vertex => "vert.glsl",
        }
    }
}

/// The entry points of a pipeline, each a reference to a module.
#[derive(Debug, Clone)]
pub struct Pipeline<S> {
    pub vertex: Option<S>,
    pub fragment: Option<S>,
}

/// A piece of generated code.
#[derive(Debug, Clone, Copy, PartialEq, Eq, Structural)]
pub struct Fragment {}

} // verus!
