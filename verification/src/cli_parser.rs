//! Command-line options: an optional expansion-only flag and one source
//! file path.  The first argument is the program name and is skipped.

use vstd::prelude::*;

use crate::util::string_to_chars;

verus! {

/// A rejected command line.
#[derive(Debug)]
pub enum CliError {
    /// The expansion-only flag was given twice.
    FlagRepeated,
    /// A second file path was given.
    FileRepeated,
}

/// The diagnostic text of a rejected command line.
pub open spec fn cli_message_spec(e: CliError) -> Seq<char> {
    match e {
        CliError::FlagRepeated => "'-m' was already used"@,
        CliError::FileRepeated => "File was already specified!"@,
    }
}

impl CliError {
    /// The message reported for this failure.
    pub fn message(&self) -> (r: String)
        ensures
            r@ == cli_message_spec(*self),
    {
        match self {
            CliError::FlagRepeated => String::from_str("'-m' was already used"),
            CliError::FileRepeated => String::from_str("File was already specified!"),
        }
    }
}

/// What parsing the arguments from position `i` onward yields, given the
/// flag and path gathered so far.  A leading dash marks an option: only
/// `-m` is meaningful and may be given once; other options are ignored.
/// Anything else is the file path, which may be given only while the path
/// gathered so far is still empty.
pub open spec fn cli_spec(args: Seq<Seq<char>>, i: int, only: bool, path: Seq<char>) -> Result<
    (bool, Seq<char>),
    CliError,
>
    decreases args.len() - i,
{
    if i < 0 || i >= args.len() {
        Ok((only, path))
    } else {
        let a = args[i];
        if a.len() > 0 && a[0] == '-' {
            if a.drop_first() == seq!['m'] {
                if !only {
                    cli_spec(args, i + 1, true, path)
                } else {
                    Err(CliError::FlagRepeated)
                }
            } else {
                cli_spec(args, i + 1, only, path)
            }
        } else {
            if path.len() == 0 {
                cli_spec(args, i + 1, only, a)
            } else {
                Err(CliError::FileRepeated)
            }
        }
    }
}

/// The parsed command line.
#[derive(Debug)]
pub struct CmdArgs {
    pub only_expand: bool,
    pub file_path: String,
}

impl CmdArgs {
    /// Parse the raw arguments, program name first.
    pub fn parse(args: Vec<String>) -> (r: Result<CmdArgs, CliError>)
        ensures
            match r {
                Ok(c) => cli_spec(args@.map_values(|s: String| s@), 1, false, Seq::empty()) == Ok::<
                    (bool, Seq<char>),
                    CliError,
                >((c.only_expand, c.file_path@)),
                Err(e) => cli_spec(args@.map_values(|s: String| s@), 1, false, Seq::empty())
                    == Err::<(bool, Seq<char>), CliError>(e),
            },
    {
        let ghost views = args@.map_values(|s: String| s@);
        let mut only_expand = false;
        let mut file_path = String::new();

        let mut i: usize = 1;
        while i < args.len()
            invariant
                1 <= i,
                i <= args@.len() || i == 1,
                views == args@.map_values(|s: String| s@),
                cli_spec(views, 1, false, Seq::empty()) == cli_spec(
                    views,
                    i as int,
                    only_expand,
                    file_path@,
                ),
            decreases args@.len() - i,
        {
            let chars = string_to_chars(args[i].as_str());
            if chars.len() > 0 && chars[0] == '-' {
                let is_m = chars.len() == 2 && chars[1] == 'm';
                proof {
                    if is_m {
                        assert(views[i as int].drop_first() =~= seq!['m']);
                    } else {
                        assert(views[i as int].drop_first() != seq!['m']) by {
                            if views[i as int].drop_first() == seq!['m'] {
                                assert(views[i as int].len() == 2);
                                assert(views[i as int].drop_first()[0] == 'm');
                                assert(views[i as int][1] == 'm');
                            }
                        }
                    }
                }
                if is_m {
                    if !only_expand {
                        only_expand = true;
                    } else {
                        return Err(CliError::FlagRepeated);
                    }
                }
            } else {
                if file_path.as_str().is_empty() {
                    file_path = args[i].clone();
                } else {
                    return Err(CliError::FileRepeated);
                }
            }
            i += 1;
        }

        Ok(CmdArgs { only_expand, file_path })
    }

    /// Whether only the expansion listing is wanted.
    pub fn only_expand(&self) -> (r: bool)
        ensures
            r == self.only_expand,
    {
        self.only_expand
    }

    /// The source file path.
    pub fn filepath(&self) -> (r: &String)
        ensures
            r == self.file_path,
    {
        &self.file_path
    }
}

} // verus!
