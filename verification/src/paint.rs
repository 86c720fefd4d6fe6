//! Coloured text for messages, by `colored`. Whether a colour is applied
//! depends on the terminal and on what the process was started with, so
//! nothing is claimed of the text that comes back.

use vstd::prelude::*;
use colored::Colorize;

verus! {

/// `Colorize::red`, written out by the `Display` of the coloured text: the
/// text as it is to be shown in red.
#[verifier::external_body]
pub(crate) fn red(text: &str) -> (painted: String) {
    text.red().to_string()
}

/// `Colorize::green`, written out by the `Display` of the coloured text: the
/// text as it is to be shown in green.
#[verifier::external_body]
pub(crate) fn green(text: &str) -> (painted: String) {
    text.green().to_string()
}

} // verus!
