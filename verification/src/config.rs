//! What to search for and where, as given on the command line.

use crate::error::Error;
use vstd::prelude::*;
use vstd::string::*;

verus! {

/// The parameters of a run: the text to look for and the file to look in.
/// Both refer to the argument list they were taken from.
#[derive(Clone, Copy, Debug, PartialEq, Eq)]
pub struct Config<'a> {
    pub query: &'a str,
    pub filename: &'a str,
}

/// A `Config` seen as two texts.
pub struct ConfigView {
    pub query: Seq<char>,
    pub filename: Seq<char>,
}

impl<'a> View for Config<'a> {
    type V = ConfigView;

    open spec fn view(&self) -> ConfigView {
        ConfigView { query: self.query@, filename: self.filename@ }
    }
}

impl<'a> Config<'a> {
    /// Reads the parameters of a run from a process's argument list, whose
    /// first entry is the program's name.
    ///
    /// The second entry becomes the query and the third the file name, each
    /// as it stands. Entries after the third are not looked at. A list of
    /// fewer than three entries is refused.
    pub fn new(args: &'a [String]) -> (parsed: Result<Config<'a>, Error>)
        ensures
            args@.len() < 3 ==> parsed == Err::<Config<'a>, Error>(Error::MissingArgument),
            args@.len() >= 3 ==> parsed is Ok && parsed->Ok_0@ == (ConfigView {
                query: args@[1]@,
                filename: args@[2]@,
            }),
    {
        if args.len() < 3 {
            return Err(Error::MissingArgument);
        }
        Ok(Config { query: args[1].as_str(), filename: args[2].as_str() })
    }
}

} // verus!
