//! Checks on the two directory arguments, made before any work begins.
use vstd::prelude::*;

verus! {

/// The message given when the input directory is missing or not a directory.
pub open spec fn input_dir_error(input_dir: Seq<char>) -> Seq<char> {
    input_dir + " does not exist or exists and is a file"@
}

/// The message given when the output directory exists but is not a directory.
pub open spec fn output_dir_error(output_dir: Seq<char>) -> Seq<char> {
    "output_dir "@ + output_dir + " exists and is not a directory"@
}

/// Accepts the input directory only when it exists and is a directory.
///
/// `present` and `is_dir` are what the file system reports for `input_dir`.
pub fn check_input_dir(input_dir: &str, present: bool, is_dir: bool) -> (r: Result<(), String>)
    ensures
        r is Ok <==> (present && is_dir),
        r matches Err(msg) ==> msg@ == input_dir_error(input_dir@),
{
    if !present || !is_dir {
        let mut msg = String::from_str(input_dir);
        msg.append(" does not exist or exists and is a file");
        Err(msg)
    } else {
        Ok(())
    }
}

/// Accepts the output directory when it does not exist yet (it is created on
/// demand) or when it exists and is a directory.
pub fn check_output_dir(output_dir: &str, present: bool, is_dir: bool) -> (r: Result<(), String>)
    ensures
        r is Ok <==> (!present || is_dir),
        r matches Err(msg) ==> msg@ == output_dir_error(output_dir@),
{
    if present && !is_dir {
        let mut msg = String::from_str("output_dir ");
        msg.append(output_dir);
        msg.append(" exists and is not a directory");
        Err(msg)
    } else {
        Ok(())
    }
}

} // verus!
