//! Argument and report shapes of the benchmark harness around the
//! slicing core.

use vstd::prelude::*;

verus! {

/// The example application a benchmark run exercises.
#[derive(Clone, Copy, Debug, Eq, PartialEq, Hash)]
pub enum App {
    Github,
    GithubTemplates,
    Gdrive,
    GdriveTemplates,
    TinyTodo,
}

impl App {
    /// The textual name of the application.
    pub fn label(&self) -> (r: &'static str)
        ensures
            *self is Github ==> r@ == "github"@,
            *self is GithubTemplates ==> r@ == "github-templates"@,
            *self is Gdrive ==> r@ == "gdrive"@,
            *self is GdriveTemplates ==> r@ == "gdrive-templates"@,
            *self is TinyTodo ==> r@ == "tinytodo"@,
    {
        match self {
            App::Github => "github",
            App::GithubTemplates => "github-templates",
            App::Gdrive => "gdrive",
            App::GdriveTemplates => "gdrive-templates",
            App::TinyTodo => "tinytodo",
        }
    }
}

/// The authorization engine a benchmark run tests.
#[derive(Clone, Copy, Debug, Eq, PartialEq, Ord, PartialOrd, Hash)]
pub enum EngineChoice {
    Cedar,
    OpenFGA,
    CedarOpt,
    Rego,
    RegoPreTC,
}

impl EngineChoice {
    /// The textual name of the engine.
    pub fn label(&self) -> (r: &'static str)
        ensures
            *self is Cedar ==> r@ == "cedar"@,
            *self is OpenFGA ==> r@ == "openfga"@,
            *self is CedarOpt ==> r@ == "cedaropt"@,
            *self is Rego ==> r@ == "rego"@,
            *self is RegoPreTC ==> r@ == "rego_pre_tc"@,
    {
        match self {
            EngineChoice::Cedar => "cedar",
            EngineChoice::OpenFGA => "openfga",
            EngineChoice::CedarOpt => "cedaropt",
            EngineChoice::Rego => "rego",
            EngineChoice::RegoPreTC => "rego_pre_tc",
        }
    }
}

/// Parameters that are not varied across the experiments of one run.
#[derive(Debug)]
pub struct CommonBenchArgs {
    /// Which example applications to benchmark.
    pub app: Vec<App>,
    /// Which authorization engines to test.
    pub engine: Vec<EngineChoice>,
    /// Number of requests to generate, per hierarchy.
    pub num_requests: usize,
    /// Number of hierarchies to generate, per experiment.
    pub num_hierarchies: usize,
}

/// Arguments of a benchmark run.
#[derive(Debug)]
pub struct BenchArgs {
    pub common_args: CommonBenchArgs,
    /// Byte budgets for the randomness source, one experiment each.
    pub unstructured_bytes: Vec<usize>,
    /// Entity counts per entity type, one experiment each.
    pub num_entities: Vec<usize>,
}

/// The decision and duration one comparison engine reported.
#[derive(Debug, Clone)]
pub struct GoTestOutput {
    pub decision: bool,
    pub dur_nanoseconds: u64,
}

} // verus!
