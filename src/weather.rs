//! The weather panel's command line and the text it shows for the command's
//! outcome.

use vstd::prelude::*;
use vstd::string::{StrSliceExecFns, StringExecFns};

use crate::text::{chars_of, trim, trim_range};

verus! {

/// The shell command that fetches the weather line for `location`.
pub open spec fn weather_command_spec(location: Seq<char>) -> Seq<char> {
    "curl -s wttr.in/"@ + location + "?format=%c+%t+%w+%m+%p"@
}

pub fn weather_command(location: &str) -> (r: String)
    ensures
        r@ == weather_command_spec(location@),
{
    String::from_str("curl -s wttr.in/").concat(location).concat("?format=%c+%t+%w+%m+%p")
}

/// What the panel shows after the command ran: its trimmed output when it
/// succeeded, and otherwise an error naming its error output and the
/// directory it ran in.
pub open spec fn weather_text_spec(
    success: bool,
    stdout: Seq<char>,
    stderr: Seq<char>,
    cwd: Seq<char>,
) -> Seq<char> {
    if success {
        trim(stdout)
    } else {
        "Weather script error: "@ + stderr + "\nscript path: "@ + cwd
    }
}

pub fn weather_text(success: bool, stdout: &str, stderr: &str, cwd: &str) -> (r: String)
    ensures
        r@ == weather_text_spec(success, stdout@, stderr@, cwd@),
{
    if success {
        let v = chars_of(stdout);
        let (a, b) = trim_range(&v, 0, v.len());
        proof {
            assert(v@.subrange(0, v.len() as int) =~= v@);
        }
        stdout.substring_char(a, b).to_owned()
    } else {
        String::from_str("Weather script error: ").concat(stderr).concat("\nscript path: ").concat(
            cwd,
        )
    }
}

} // verus!
