use vstd::prelude::*;
use crate::text::text_eq;

verus! {

/// The lower-case form of a text, character by character as Unicode defines it.
pub uninterp spec fn lower_of(s: Seq<char>) -> Seq<char>;

/// Relies on std's `str::to_lowercase`: the result depends on the characters
/// alone.
#[verifier::external_body]
fn to_lower(s: &str) -> (r: String)
    ensures
        r@ == lower_of(s@),
{
    s.to_lowercase()
}

/// Why a command line was refused.
#[derive(Debug, PartialEq, Eq)]
pub enum ArgsError {
    NoCommand,
    InvalidCommand(String),
    NotEnoughArgs(usize),
    TooManyArgs(usize),
}

/// A command with its arguments.
pub enum PngMeArgs {
    Encode(EncodeArgs),
    Decode(DecodeArgs),
    Remove(RemoveArgs),
    Print(PrintArgs),
}

/// Hide `message` in the file at `path` under `chunk_type`; write the result
/// to `output_file` when given, else back to `path`.
pub struct EncodeArgs {
    pub path: String,
    pub chunk_type: String,
    pub message: String,
    pub output_file: Option<String>,
}

/// Read the message under `chunk_type` in the file at `path`.
pub struct DecodeArgs {
    pub path: String,
    pub chunk_type: String,
}

/// Remove the first record of type `chunk_type` from the file at `path`.
pub struct RemoveArgs {
    pub path: String,
    pub chunk_type: String,
}

/// List the records of the file at `path`.
pub struct PrintArgs {
    pub path: String,
}

/// The outcome of a count check: too few or too many arguments, or none.
pub open spec fn count_error(len: int, min: int, max: int) -> Option<ArgsError> {
    if len < min {
        Some(ArgsError::NotEnoughArgs(len as usize))
    } else if len > max {
        Some(ArgsError::TooManyArgs(len as usize))
    } else {
        None
    }
}

impl EncodeArgs {
    /// Reads `encode <path> <type> <message> [<output>]`.
    pub fn new(args: &[String]) -> (r: Result<EncodeArgs, ArgsError>)
        ensures
            count_error(args@.len() as int, 4, 5) matches Some(e) ==> r == Err::<
                EncodeArgs,
                ArgsError,
            >(e),
            count_error(args@.len() as int, 4, 5) is None ==> (r matches Ok(a) && a.path
                == args@[1] && a.chunk_type == args@[2] && a.message == args@[3]
                && a.output_file == if args@.len() == 5 {
                Some(args@[4])
            } else {
                None::<String>
            }),
    {
        let n = args.len();
        if n < 4 {
            return Err(ArgsError::NotEnoughArgs(n));
        } else if n > 5 {
            return Err(ArgsError::TooManyArgs(n));
        }
        let output_file = if n == 5 {
            Some(args[4].clone())
        } else {
            None
        };
        Ok(EncodeArgs {
            path: args[1].clone(),
            chunk_type: args[2].clone(),
            message: args[3].clone(),
            output_file,
        })
    }
}

impl DecodeArgs {
    /// Reads `decode <path> <type>`.
    pub fn new(args: &[String]) -> (r: Result<DecodeArgs, ArgsError>)
        ensures
            count_error(args@.len() as int, 3, 3) matches Some(e) ==> r == Err::<
                DecodeArgs,
                ArgsError,
            >(e),
            count_error(args@.len() as int, 3, 3) is None ==> (r matches Ok(a) && a.path
                == args@[1] && a.chunk_type == args@[2]),
    {
        let n = args.len();
        if n < 3 {
            return Err(ArgsError::NotEnoughArgs(n));
        } else if n > 3 {
            return Err(ArgsError::TooManyArgs(n));
        }
        Ok(DecodeArgs { path: args[1].clone(), chunk_type: args[2].clone() })
    }
}

impl RemoveArgs {
    /// Reads `remove <path> <type>`.
    pub fn new(args: &[String]) -> (r: Result<RemoveArgs, ArgsError>)
        ensures
            count_error(args@.len() as int, 3, 3) matches Some(e) ==> r == Err::<
                RemoveArgs,
                ArgsError,
            >(e),
            count_error(args@.len() as int, 3, 3) is None ==> (r matches Ok(a) && a.path
                == args@[1] && a.chunk_type == args@[2]),
    {
        let n = args.len();
        if n < 3 {
            return Err(ArgsError::NotEnoughArgs(n));
        } else if n > 3 {
            return Err(ArgsError::TooManyArgs(n));
        }
        Ok(RemoveArgs { path: args[1].clone(), chunk_type: args[2].clone() })
    }
}

impl PrintArgs {
    /// Reads `print <path>`.
    pub fn new(args: &[String]) -> (r: Result<PrintArgs, ArgsError>)
        ensures
            count_error(args@.len() as int, 2, 2) matches Some(e) ==> r == Err::<
                PrintArgs,
                ArgsError,
            >(e),
            count_error(args@.len() as int, 2, 2) is None ==> (r matches Ok(a) && a.path
                == args@[1]),
    {
        let n = args.len();
        if n < 2 {
            return Err(ArgsError::NotEnoughArgs(n));
        } else if n > 2 {
            return Err(ArgsError::TooManyArgs(n));
        }
        Ok(PrintArgs { path: args[1].clone() })
    }
}

/// Which command a lower-cased command word names: 0 encode, 1 decode,
/// 2 remove, 3 print, none otherwise.
pub open spec fn command_kind(word: Seq<char>) -> Option<int> {
    if word == "encode"@ {
        Some(0)
    } else if word == "decode"@ {
        Some(1)
    } else if word == "remove"@ {
        Some(2)
    } else if word == "print"@ {
        Some(3)
    } else {
        None
    }
}

/// What a command line `args` whose command word reads as `word` gives,
/// except for the text carried by `InvalidCommand`.
pub open spec fn command_outcome(
    word: Seq<char>,
    args: Seq<String>,
    r: Result<PngMeArgs, ArgsError>,
) -> bool {
    if args.len() < 2 {
        r == Err::<PngMeArgs, ArgsError>(ArgsError::NotEnoughArgs(args.len() as usize))
    } else {
        match command_kind(word) {
            None => r matches Err(ArgsError::InvalidCommand(c)) && c@ == word,
            Some(k) => match r {
                Ok(PngMeArgs::Encode(a)) => k == 0 && count_error(args.len() - 1, 4, 5) is None
                    && a.path == args[2] && a.chunk_type == args[3] && a.message == args[4]
                    && a.output_file == if args.len() == 6 {
                    Some(args[5])
                } else {
                    None::<String>
                },
                Ok(PngMeArgs::Decode(a)) => k == 1 && count_error(args.len() - 1, 3, 3) is None
                    && a.path == args[2] && a.chunk_type == args[3],
                Ok(PngMeArgs::Remove(a)) => k == 2 && count_error(args.len() - 1, 3, 3) is None
                    && a.path == args[2] && a.chunk_type == args[3],
                Ok(PngMeArgs::Print(a)) => k == 3 && count_error(args.len() - 1, 2, 2) is None
                    && a.path == args[2],
                Err(e) => Some(e) == if k == 0 {
                    count_error(args.len() - 1, 4, 5)
                } else if k == 3 {
                    count_error(args.len() - 1, 2, 2)
                } else {
                    count_error(args.len() - 1, 3, 3)
                },
            },
        }
    }
}

/// Reads a command line whose command word (`args[1]`) has already been
/// lower-cased into `command`: dispatches on it and reads the rest of the
/// line from the command word on.
pub fn parse_command(command: String, args: &[String]) -> (r: Result<PngMeArgs, ArgsError>)
    ensures
        command_outcome(command@, args@, r),
        args@.len() >= 2 && command_kind(command@) is None ==> r == Err::<PngMeArgs, ArgsError>(
            ArgsError::InvalidCommand(command),
        ),
{
    let n = args.len();
    if n < 2 {
        return Err(ArgsError::NotEnoughArgs(n));
    }
    let rest = &args[1..n];
    assert(forall|j: int| 0 <= j < rest@.len() ==> rest@[j] == args@[j + 1]);
    if text_eq(command.as_str(), "encode") {
        match EncodeArgs::new(rest) {
            Ok(a) => Ok(PngMeArgs::Encode(a)),
            Err(e) => Err(e),
        }
    } else if text_eq(command.as_str(), "decode") {
        match DecodeArgs::new(rest) {
            Ok(a) => Ok(PngMeArgs::Decode(a)),
            Err(e) => Err(e),
        }
    } else if text_eq(command.as_str(), "remove") {
        match RemoveArgs::new(rest) {
            Ok(a) => Ok(PngMeArgs::Remove(a)),
            Err(e) => Err(e),
        }
    } else if text_eq(command.as_str(), "print") {
        match PrintArgs::new(rest) {
            Ok(a) => Ok(PngMeArgs::Print(a)),
            Err(e) => Err(e),
        }
    } else {
        Err(ArgsError::InvalidCommand(command))
    }
}

/// Reads a whole command line (`args[0]` is the program): the command word
/// is matched without regard to case.
pub fn process_args(args: &[String]) -> (r: Result<PngMeArgs, ArgsError>)
    ensures
        args@.len() >= 2 ==> command_outcome(lower_of(args@[1]@), args@, r),
        args@.len() < 2 ==> r == Err::<PngMeArgs, ArgsError>(
            ArgsError::NotEnoughArgs(args@.len() as usize),
        ),
{
    if args.len() < 2 {
        return Err(ArgsError::NotEnoughArgs(args.len()));
    }
    let command = to_lower(args[1].as_str());
    parse_command(command, args)
}

} // verus!
