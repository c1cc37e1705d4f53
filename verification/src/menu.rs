//! Identifiers for the host's custom menu entries and the dispatch test for
//! the "reload page" entry.

use vstd::prelude::*;
use crate::strutil::str_eq;

verus! {

/// Identifier of the "reload page" menu entry.
pub const RELOAD_MENU_ID: &'static str = "reload_page";

/// Script run in the webview when the page is reloaded.
pub const RELOAD_JS: &'static str = "window.location.reload()";

/// True exactly for the identifier of the "reload page" menu entry.
pub fn should_handle_reload(id: &str) -> (r: bool)
    ensures
        r == (id@ == "reload_page"@),
{
    str_eq(id, "reload_page")
}

} // verus!
