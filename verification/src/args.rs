use vstd::prelude::*;

verus! {

/// The two positional arguments: the log file's path, then the query.
#[derive(Debug, PartialEq)]
pub struct Args {
    pub file_path: String,
    pub query: String,
}

/// Why the arguments are not exactly a path and a query.
#[derive(Debug, PartialEq, Eq, Structural, Clone, Copy)]
pub enum ArgsError {
    MissingFilePath,
    MissingQuery,
    TooManyArguments(usize),
}

/// Reads the program's arguments (without the program name): exactly two are
/// accepted, the file path and then the query.
pub fn parse_args(args: &[String]) -> (r: Result<Args, ArgsError>)
    ensures
        args@.len() == 2 ==> (r matches Ok(a) && a.file_path == args@[0] && a.query == args@[1]),
        args@.len() == 0 ==> r == Err::<Args, ArgsError>(ArgsError::MissingFilePath),
        args@.len() == 1 ==> r == Err::<Args, ArgsError>(ArgsError::MissingQuery),
        args@.len() > 2 ==> r == Err::<Args, ArgsError>(ArgsError::TooManyArguments(args@.len() as usize)),
{
    match args.len() {
        2 => Ok(Args { file_path: args[0].clone(), query: args[1].clone() }),
        0 => Err(ArgsError::MissingFilePath),
        1 => Err(ArgsError::MissingQuery),
        _ => Err(ArgsError::TooManyArguments(args.len())),
    }
}

} // verus!
