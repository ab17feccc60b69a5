//! Small path and text helpers shared by the pipeline and its callers.
use vstd::prelude::*;

verus! {

/// Joins a base path and a relative path with a single separator.
pub fn find_absolute_path(base_path: &str, path: &str) -> (r: String)
    ensures
        r@ == base_path@ + "/"@ + path@,
{
    let mut absolute_path = String::from_str(base_path);
    absolute_path.append("/");
    absolute_path.append(path);
    absolute_path
}

/// Compares two string slices by their character content.
pub fn str_eq(a: &str, b: &str) -> (r: bool)
    ensures
        r == (a@ == b@),
{
    let owned_a = a.to_owned();
    let owned_b = b.to_owned();
    owned_a == owned_b
}

/// Renders a tray-menu title with a filled bullet when the item is on and a
/// hollow bullet when it is off.
pub fn toggle_menu_item_status(title: &str, status: bool) -> (r: String)
    ensures
        r@ == (if status {
            "\u{25cf}"@
        } else {
            "\u{25cb}"@
        }) + " "@ + title@,
{
    let mut r = String::from_str(if status {
        "\u{25cf}"
    } else {
        "\u{25cb}"
    });
    r.append(" ");
    r.append(title);
    r
}

} // verus!
