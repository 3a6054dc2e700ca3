//! The report that is written when the application panics.

use vstd::prelude::*;

verus! {

/// Name of the report of a panic at the time `ts`.
pub fn crash_file_name(ts: &str) -> (res: String)
    ensures
        res@ == "panic-"@ + ts@ + ".txt"@,
{
    let mut out = "panic-".to_string();
    out.append(ts);
    out.append(".txt");
    out
}

/// The report: when, which version, what the panic said, and where it happened.
pub fn crash_report(ts: &str, version: &str, info: &str, backtrace: &str) -> (res: String)
    ensures
        res@ == "RySQL panic at "@ + ts@ + "\nBuild: rysql-ui v"@ + version@ + "\n---\n"@ + info@
            + "\n---\n"@ + backtrace@ + "\n"@,
{
    let mut out = "RySQL panic at ".to_string();
    out.append(ts);
    out.append("\nBuild: rysql-ui v");
    out.append(version);
    out.append("\n---\n");
    out.append(info);
    out.append("\n---\n");
    out.append(backtrace);
    out.append("\n");
    out
}

} // verus!
