//! The invocation modes and their arguments, as plain data.

use vstd::prelude::*;

verus! {

/// The file-selection arguments every mode shares.
pub struct CommonArgs {
    pub recursive: bool,
    pub paths: Vec<String>,
}

/// Arguments of the statistics mode.
pub struct CountArgs {
    pub common: CommonArgs,
    pub quick: bool,
    pub eval_limit: i16,
}

/// Arguments of the permutation mode.
pub struct ShuffleArgs {
    pub common: CommonArgs,
    pub seed: u64,
}

/// The three modes of one invocation.
pub enum Command {
    Count(CountArgs),
    Fix(CommonArgs),
    Shuffle(ShuffleArgs),
}

impl Command {
    /// The shared arguments of whichever mode was chosen.
    pub open spec fn common_spec(&self) -> CommonArgs {
        match *self {
            Command::Count(ref args) => args.common,
            Command::Fix(ref args) => *args,
            Command::Shuffle(ref args) => args.common,
        }
    }

    pub fn common(&self) -> (r: &CommonArgs)
        ensures
            *r == self.common_spec(),
    {
        match self {
            Command::Count(args) => &args.common,
            Command::Fix(args) => args,
            Command::Shuffle(args) => &args.common,
        }
    }
}

} // verus!
