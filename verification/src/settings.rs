//! The decisions of the settings panel: which theme card and accent swatch
//! are marked, how a swatch is drawn, and when the notification permission
//! can be asked for.
use vstd::prelude::*;

use crate::scheduler::Permission;
use crate::text::{eq_ignore_ascii_case, eq_ignore_ascii_case_spec};

verus! {

/// The classes of a theme card, marked when it is the active theme.
pub fn theme_card_class(active: bool) -> (r: &'static str)
    ensures
        active ==> r@
            == "flex flex-1 flex-col items-center gap-2 rounded-lg border border-[var(--accent)] bg-[color-mix(in_srgb,var(--accent)_15%,transparent)] p-4 text-[var(--accent)]"@,
        !active ==> r@
            == "flex flex-1 flex-col items-center gap-2 rounded-lg border border-[var(--primary-color-6)] bg-transparent p-4 text-[var(--secondary-color)]"@,
{
    if active {
        "flex flex-1 flex-col items-center gap-2 rounded-lg border border-[var(--accent)] bg-[color-mix(in_srgb,var(--accent)_15%,transparent)] p-4 text-[var(--accent)]"
    } else {
        "flex flex-1 flex-col items-center gap-2 rounded-lg border border-[var(--primary-color-6)] bg-transparent p-4 text-[var(--secondary-color)]"
    }
}

/// An accent swatch is marked when it is the accent colour, up to ASCII
/// case.
pub fn accent_swatch_active(accent: &str, hex: &str) -> (r: bool)
    ensures
        r == eq_ignore_ascii_case_spec(vstd::utf8::encode_utf8(accent@), vstd::utf8::encode_utf8(hex@)),
{
    eq_ignore_ascii_case(accent, hex)
}

/// The inline style of an accent swatch of colour `hex`: a round dot of that
/// colour, ringed when marked.
pub open spec fn swatch_style_spec(hex: Seq<char>, active: bool) -> Seq<char> {
    "width:24px;height:24px;border-radius:9999px;cursor:pointer;background:"@ + hex
        + ";box-shadow:"@ + if active {
        "0 0 0 2px var(--primary-color-3), 0 0 0 4px "@ + hex
    } else {
        "none"@
    }
}

/// The inline style of an accent swatch.
pub fn swatch_style(hex: &str, active: bool) -> (r: String)
    ensures
        r@ == swatch_style_spec(hex@, active),
{
    let mut style = "width:24px;height:24px;border-radius:9999px;cursor:pointer;background:".to_owned();
    style.append(hex);
    style.append(";box-shadow:");
    if active {
        style.append("0 0 0 2px var(--primary-color-3), 0 0 0 4px ");
        style.append(hex);
    } else {
        style.append("none");
    }
    style
}

/// The permission can be asked for unless it is granted or notifications
/// are unsupported.
pub fn can_request_permission(permission: Permission) -> (r: bool)
    ensures
        r == (permission != Permission::Granted && permission != Permission::Unsupported),
{
    match permission {
        Permission::Granted | Permission::Unsupported => false,
        _ => true,
    }
}

} // verus!
