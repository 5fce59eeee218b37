//! Project descriptions of the tool chain and the names derived from them.
//! Reading the description from disk is the host's part.

use vstd::prelude::*;
use vstd::string::*;

verus! {

/// A Spack project description (`*.spack`, JSON).
pub struct SpackConfig {
    pub name: String,
    pub version: String,
    pub main: String,
    pub dependencies: Vec<String>,
    pub output: Option<String>,
}

/// The file name that `spack build` writes when the project names none.
pub open spec fn default_output_name(name: Seq<char>) -> Seq<char> {
    name + ".exe"@
}

impl SpackConfig {
    /// The executable that `spack build` produces: the configured `output`,
    /// or the project name followed by `.exe`.
    pub fn output_name(&self) -> (res: String)
        ensures
            res@ == match self.output {
                Some(o) => o@,
                None => default_output_name(self.name@),
            },
    {
        match &self.output {
            Some(o) => o.clone(),
            None => {
                let mut s = self.name.clone();
                s.append(".exe");
                proof {
                    reveal_strlit(".exe");
                }
                s
            },
        }
    }
}

} // verus!
