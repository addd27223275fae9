//! The settings of the programs around the library.

use vstd::prelude::*;

verus! {

/// The credentials of the account whose consumption is read.
#[derive(Clone, Debug, PartialEq, Eq)]
pub struct Energiatili {
    pub username: String,
    pub password: String,
}

/// The settings file.
#[derive(Clone, Debug, PartialEq, Eq)]
pub struct Config {
    pub energiatili: Energiatili,
}

impl Default for Energiatili {
    /// Empty credentials.
    fn default() -> (r: Self)
        ensures
            r.username@ == Seq::<char>::empty(),
            r.password@ == Seq::<char>::empty(),
    {
        Energiatili { username: String::new(), password: String::new() }
    }
}

impl Default for Config {
    /// Settings with empty credentials: the skeleton of a settings file.
    fn default() -> (r: Self)
        ensures
            r.energiatili.username@ == Seq::<char>::empty(),
            r.energiatili.password@ == Seq::<char>::empty(),
    {
        Config { energiatili: Energiatili::default() }
    }
}

} // verus!
