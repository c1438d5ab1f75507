use crate::path::{debug_text, path_debug, path_exists, path_is_dir};
use std::path::PathBuf;
use vstd::prelude::*;
use vstd::string::StringExecFns;

verus! {

/// What the user asks for: the directory to search, and by which parts of
/// the capture date to group.
#[derive(Debug, Default)]
pub struct Arguments {
    /// Path to the directory that holds the media files
    pub path: PathBuf,
    /// Group by months
    pub months: bool,
    /// Group by years
    pub years: bool,
}

impl Arguments {
    /// The message with which arguments are refused, `None` where they are
    /// accepted: the path must exist, it must be a directory, and one of
    /// the two flags must be set. The first failing condition decides.
    pub open spec fn refusal(&self, exists: bool, is_dir: bool) -> Option<Seq<char>> {
        if !exists {
            Some("The path "@ + path_debug(self.path) + " does not exist."@)
        } else if !is_dir {
            Some(path_debug(self.path) + " is not a directory."@)
        } else if !self.years && !self.months {
            Some("Either the months or years flag must be set"@)
        } else {
            None
        }
    }

    /// Whether `result` is the answer to these arguments, given what the
    /// file system says of the path.
    pub open spec fn answered(
        &self,
        result: Result<&Arguments, String>,
        exists: bool,
        is_dir: bool,
    ) -> bool {
        match result {
            Ok(accepted) => accepted == self && self.refusal(exists, is_dir) is None,
            Err(message) => self.refusal(exists, is_dir) == Some(message@),
        }
    }

    /// Accepts or refuses the arguments, given whether the path exists and
    /// whether it is a directory.
    pub fn decide(&self, exists: bool, is_dir: bool) -> (result: Result<&Self, String>)
        ensures
            self.answered(result, exists, is_dir),
    {
        if !exists {
            let mut message = String::from_str("The path ");
            message.append(debug_text(&self.path).as_str());
            message.append(" does not exist.");
            return Err(message);
        }
        if !is_dir {
            let mut message = debug_text(&self.path);
            message.append(" is not a directory.");
            return Err(message);
        }
        if !self.years && !self.months {
            return Err(String::from_str("Either the months or years flag must be set"));
        }
        Ok(self)
    }

    /// Asks the file system about the path, and accepts or refuses the
    /// arguments by the answer. Accepted arguments have a flag set.
    pub fn validate(&self) -> (result: Result<&Self, String>)
        ensures
            exists|exists: bool, is_dir: bool| self.answered(result, exists, is_dir),
            result is Ok ==> self.years || self.months,
            !self.years && !self.months ==> result is Err,
    {
        let exists = path_exists(&self.path);
        let is_dir = path_is_dir(&self.path);
        let result = self.decide(exists, is_dir);
        assert(self.answered(result, exists, is_dir));
        result
    }
}

} // verus!
