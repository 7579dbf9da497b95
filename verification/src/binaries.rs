//! Names of the bundled helper programs.

use vstd::prelude::*;
use crate::text::append_str;

verus! {

/// The file name of the program `name`: with `.exe` appended on Windows.
pub fn executable_name(name: &str, on_windows: bool) -> (r: String)
    ensures
        r@ == if on_windows {
            name@ + ".exe"@
        } else {
            name@
        },
{
    let mut n = name.to_owned();
    if on_windows {
        append_str(&mut n, ".exe");
    }
    n
}

} // verus!
