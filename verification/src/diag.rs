use vstd::prelude::*;
use std::io::Write;

verus! {

/// Relies on std::io::stderr: configuration anomalies are reported on the
/// standard error stream, prefixed with "warning:", and otherwise ignored.
#[verifier::external_body]
pub(crate) fn emit_warning(msg: &str) {
    let _ = writeln!(std::io::stderr(), "warning: {}", msg);
}

} // verus!
