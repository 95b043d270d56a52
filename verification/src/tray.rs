//! The menu bar item: which request each menu entry sends.

use vstd::prelude::*;

use crate::shell::Request;

verus! {

/// The identifier of the menu entry that shows the window.
pub const SHOW_ID: &'static str = "show";

/// The identifier of the menu entry that rescans the applications.
pub const RESCAN_ID: &'static str = "rescan";

/// The request a menu entry with identifier `id` sends: none for entries the
/// app does not handle itself (such as Quit).
pub fn request_for_menu(id: &str) -> (request: Option<Request>)
    ensures
        id@ == "show"@ ==> request == Some(Request::Show),
        id@ == "rescan"@ ==> request == Some(Request::Rescan),
        id@ != "show"@ && id@ != "rescan"@ ==> request is None,
{
    proof {
        reveal_strlit("show");
        reveal_strlit("rescan");
        assert("rescan"@.len() != "show"@.len());
    }
    if crate::text::same_text(id, "show") {
        Some(Request::Show)
    } else if crate::text::same_text(id, "rescan") {
        Some(Request::Rescan)
    } else {
        None
    }
}

} // verus!
