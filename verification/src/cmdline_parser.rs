//! A cursor over the argument list, with typed reads of option values.

use vstd::prelude::*;

verus! {

use crate::strutil::str_eq;

/// Why an option's value could not be read.
#[derive(Clone, Copy, PartialEq, Eq, Structural, Debug)]
pub enum CmdlineError {
    /// The cursor stands past the end of the argument list.
    OutOfBounds,
    /// The option name matched but no value follows it.
    MissingValue,
    /// The value after the option is neither `true` nor `false`.
    NotBool,
}

/// A cursor over the argument list; the first entry is the program name and
/// is skipped.
pub struct Parser {
    pub args: Vec<String>,
    pub index: usize,
    pub last_bool_result: bool,
    pub last_str_result: String,
}

impl Parser {
    /// A parser over the given arguments, with the cursor after the program
    /// name.
    pub fn new(args: Vec<String>) -> (r: Parser)
        ensures
            r.args == args,
            r.index == 1,
            r.last_bool_result == false,
            r.last_str_result@ == Seq::<char>::empty(),
    {
        Parser { args, index: 1, last_bool_result: false, last_str_result: String::new() }
    }

    /// The option at the cursor matches `arg`.
    pub open spec fn current_matches(self, arg: Seq<char>) -> bool {
        self.index < self.args@.len() && self.args@[self.index as int]@ == arg
    }

    /// Tries to read `arg` followed by `true` or `false` at the cursor; a
    /// match stores the value and steps onto it. Past the end of the list,
    /// or on a matched option whose value is missing or neither word,
    /// parsing cannot go on and the exact reason is returned.
    pub fn try_parse_bool(&mut self, arg: &str) -> (r: Result<bool, CmdlineError>)
        ensures
            old(self).index >= old(self).args@.len() ==> r == Err::<bool, CmdlineError>(
                CmdlineError::OutOfBounds,
            ) && *final(self) == *old(self),
            old(self).index < old(self).args@.len() && !old(self).current_matches(arg@) ==> r
                == Ok::<bool, CmdlineError>(false) && *final(self) == *old(self),
            old(self).current_matches(arg@) && old(self).index + 1 >= old(self).args@.len() ==> r
                == Err::<bool, CmdlineError>(CmdlineError::MissingValue) && *final(self) == *old(self),
            old(self).current_matches(arg@) && old(self).index + 1 < old(self).args@.len() && old(self).args@[old(self).index + 1]@ == "true"@ ==> r == Ok::<bool, CmdlineError>(true)
                && *final(self) == (Parser {
                index: (old(self).index + 1) as usize,
                last_bool_result: true,
                ..*old(self)
            }),
            old(self).current_matches(arg@) && old(self).index + 1 < old(self).args@.len() && old(self).args@[old(self).index + 1]@ == "false"@ ==> r == Ok::<bool, CmdlineError>(true)
                && *final(self) == (Parser {
                index: (old(self).index + 1) as usize,
                last_bool_result: false,
                ..*old(self)
            }),
            old(self).current_matches(arg@) && old(self).index + 1 < old(self).args@.len() && old(self).args@[old(self).index + 1]@ != "true"@ && old(self).args@[old(self).index + 1]@
                != "false"@ ==> r == Err::<bool, CmdlineError>(CmdlineError::NotBool) && *final(self) == *old(self),
    {
        proof {
            reveal_strlit("true");
            reveal_strlit("false");
            assert("true"@.len() == 4);
            assert("false"@.len() == 5);
            assert("true"@ != "false"@);
        }
        if self.index >= self.args.len() {
            return Err(CmdlineError::OutOfBounds);
        }
        if !str_eq(arg, self.args[self.index].as_str()) {
            return Ok(false);
        }
        if self.index + 1 >= self.args.len() {
            return Err(CmdlineError::MissingValue);
        }
        if str_eq(self.args[self.index + 1].as_str(), "true") {
            self.last_bool_result = true;
            self.index = self.index + 1;
            return Ok(true);
        }
        if str_eq(self.args[self.index + 1].as_str(), "false") {
            self.last_bool_result = false;
            self.index = self.index + 1;
            return Ok(true);
        }
        Err(CmdlineError::NotBool)
    }

    /// Tries to read `arg` followed by any value at the cursor; a match
    /// stores the value and steps onto it.
    pub fn try_parse_string(&mut self, arg: &str) -> (r: Result<bool, CmdlineError>)
        ensures
            old(self).index >= old(self).args@.len() ==> r == Err::<bool, CmdlineError>(
                CmdlineError::OutOfBounds,
            ) && *final(self) == *old(self),
            old(self).index < old(self).args@.len() && !old(self).current_matches(arg@) ==> r
                == Ok::<bool, CmdlineError>(false) && *final(self) == *old(self),
            old(self).current_matches(arg@) && old(self).index + 1 >= old(self).args@.len() ==> r
                == Err::<bool, CmdlineError>(CmdlineError::MissingValue) && *final(self) == *old(self),
            old(self).current_matches(arg@) && old(self).index + 1 < old(self).args@.len() ==> r
                == Ok::<bool, CmdlineError>(true) && final(self).index == old(self).index + 1
                && final(self).last_str_result@ == old(self).args@[old(self).index + 1]@
                && final(self).args == old(self).args && final(self).last_bool_result == old(self).last_bool_result,
    {
        if self.index >= self.args.len() {
            return Err(CmdlineError::OutOfBounds);
        }
        if !str_eq(arg, self.args[self.index].as_str()) {
            return Ok(false);
        }
        if self.index + 1 >= self.args.len() {
            return Err(CmdlineError::MissingValue);
        }
        self.last_str_result = self.args[self.index + 1].clone();
        self.index = self.index + 1;
        Ok(true)
    }

    /// The last boolean value read.
    pub fn get_parsed_bool(&self) -> (r: bool)
        ensures
            r == self.last_bool_result,
    {
        self.last_bool_result
    }

    /// The last string value read.
    pub fn get_parsed_string(&self) -> (r: &str)
        ensures
            r@ == self.last_str_result@,
    {
        self.last_str_result.as_str()
    }

    /// The last string value read equals `value`.
    pub fn parsed_string_is(&self, value: &str) -> (r: bool)
        ensures
            r == (self.last_str_result@ == value@),
    {
        str_eq(self.last_str_result.as_str(), value)
    }

    /// Steps the cursor to the next argument and reports its new position.
    pub fn advance(&mut self) -> (r: usize)
        requires
            old(self).index < usize::MAX,
        ensures
            *final(self) == (Parser { index: (old(self).index + 1) as usize, ..*old(self) }),
            r == final(self).index,
    {
        self.index = self.index + 1;
        self.index
    }

    /// The cursor still stands on an argument.
    pub fn has_args_left(&self) -> (r: bool)
        ensures
            r == (self.index < self.args@.len()),
    {
        self.index < self.args.len()
    }

    /// The cursor's position.
    pub fn get_current_index(&self) -> (r: usize)
        ensures
            r == self.index,
    {
        self.index
    }

    /// The argument at the cursor; the cursor must stand on one.
    pub fn get_current_arg(&self) -> (r: &str)
        requires
            self.index < self.args@.len(),
        ensures
            r@ == self.args@[self.index as int]@,
    {
        self.args[self.index].as_str()
    }

    /// The argument at the cursor equals `what`; the cursor must stand on
    /// one.
    pub fn current_arg_is(&self, what: &str) -> (r: bool)
        requires
            self.index < self.args@.len(),
        ensures
            r == (self.args@[self.index as int]@ == what@),
    {
        str_eq(self.get_current_arg(), what)
    }
}

} // verus!
