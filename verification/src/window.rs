//! How the window is made translucent, and what its controls ask for.

use crate::binary64;
use crate::binary64::{Binary64, HALF, ONE};
use crate::text::same_text;
use vstd::prelude::*;

verus! {

/// The bit pattern of 0.999.
pub const OPAQUE: u64 = 0x3fef_f7ce_d916_872b;

/// The style of a window whose opacity can be set.
pub const LAYERED: isize = 0x8_0000;

/// What has to be done to a window: a new style, and then a new opacity, as far as given.
#[derive(Clone, Copy, Debug, PartialEq, Eq, Structural)]
pub struct LayerPlan {
    pub style: Option<isize>,
    pub alpha: Option<u8>,
}

/// The opacity that is shown: at least a half.
pub open spec fn shown_opacity(opacity: Binary64) -> Binary64 {
    opacity.clamped(Binary64 { bits: HALF }, Binary64 { bits: ONE })
}

/// The opacity is so close to one that the window need not be layered.
pub open spec fn opaque(opacity: Binary64) -> bool {
    !opacity.nan() && !shown_opacity(opacity).below(Binary64 { bits: OPAQUE })
}

/// What gives a window of the given style the given opacity.
pub open spec fn layer_plan(opacity: Binary64, style: isize) -> LayerPlan {
    if opaque(opacity) {
        LayerPlan {
            style: if style & LAYERED != 0 {
                Some(style & !LAYERED)
            } else {
                None
            },
            alpha: None,
        }
    } else {
        LayerPlan {
            style: if style & LAYERED == 0 {
                Some(style | LAYERED)
            } else {
                None
            },
            alpha: Some(
                if opacity.nan() {
                    0
                } else {
                    shown_opacity(opacity).of_255() as u8
                },
            ),
        }
    }
}

/// Decides how a window gets an opacity.
pub fn set_window_opacity(opacity: Binary64, style: isize) -> (plan: LayerPlan)
    ensures
        plan == layer_plan(opacity, style),
{
    let value: Binary64 = opacity.clamp(Binary64 { bits: HALF }, Binary64 { bits: ONE });
    if !value.is_nan() && !value.is_below(Binary64 { bits: OPAQUE }) {
        LayerPlan {
            style: if style & LAYERED != 0 {
                Some(style & !LAYERED)
            } else {
                None
            },
            alpha: None,
        }
    } else {
        let alpha: u8 = if value.is_nan() {
            0
        } else {
            proof {
                binary64::lemma_clamped_pattern(opacity);
            }
            value.to_byte()
        };
        LayerPlan {
            style: if style & LAYERED == 0 {
                Some(style | LAYERED)
            } else {
                None
            },
            alpha: Some(alpha),
        }
    }
}

/// The style of a window once a plan is carried out.
pub open spec fn resulting_style(plan: LayerPlan, style: isize) -> isize {
    match plan.style {
        Some(style) => style,
        None => style,
    }
}

/// Afterwards the window is layered exactly if it is not opaque, an opacity is set exactly then,
/// and no other part of its style has changed.
pub proof fn law_window_is_layered_unless_opaque(opacity: Binary64, style: isize)
    ensures
        ({
            let plan = layer_plan(opacity, style);
            let after = resulting_style(plan, style);
            &&& (after & LAYERED != 0) == !opaque(opacity)
            &&& plan.alpha is Some == !opaque(opacity)
            &&& after & !LAYERED == style & !LAYERED
        }),
{
    assert((style & !0x8_0000isize) & 0x8_0000isize == 0) by (bit_vector);
    assert((style | 0x8_0000isize) & 0x8_0000isize != 0) by (bit_vector);
    assert((style & !0x8_0000isize) & !0x8_0000isize == style & !0x8_0000isize) by (bit_vector);
    assert((style | 0x8_0000isize) & !0x8_0000isize == style & !0x8_0000isize) by (bit_vector);
}

/// Setting the same opacity again leaves the style alone.
pub proof fn law_style_is_set_once(opacity: Binary64, style: isize)
    ensures
        layer_plan(opacity, resulting_style(layer_plan(opacity, style), style)).style is None,
{
    law_window_is_layered_unless_opaque(opacity, style);
}

/// A window never becomes less than half opaque, unless the opacity is no number.
pub proof fn law_window_stays_half_opaque(opacity: Binary64, style: isize)
    requires
        !opacity.nan(),
    ensures
        layer_plan(opacity, style).alpha matches Some(alpha) ==> 128 <= alpha,
{
    binary64::lemma_clamped_pattern(opacity);
    binary64::lemma_byte_range(shown_opacity(opacity));
}

/// What the tray menu and the window ask for.
#[derive(Clone, Copy, Debug, PartialEq, Eq, Structural)]
pub enum Action {
    /// Show the window.
    Open,
    /// Refresh the quota.
    Refresh,
    /// Show the window with the settings.
    Settings,
    /// Hide the window.
    Hide,
    /// Stop the service and the application.
    Quit,
    Nothing,
}

/// What an item of the tray menu asks for.
pub open spec fn item_action(id: Seq<char>) -> Action {
    if id == "open"@ {
        Action::Open
    } else if id == "refresh"@ {
        Action::Refresh
    } else if id == "settings"@ {
        Action::Settings
    } else if id == "quit"@ {
        Action::Quit
    } else {
        Action::Nothing
    }
}

pub fn menu_action(id: &str) -> (action: Action)
    ensures
        action == item_action(id@),
{
    if same_text(id, "open") {
        Action::Open
    } else if same_text(id, "refresh") {
        Action::Refresh
    } else if same_text(id, "settings") {
        Action::Settings
    } else if same_text(id, "quit") {
        Action::Quit
    } else {
        Action::Nothing
    }
}

/// What closing the window comes to.
pub open spec fn closing(close_to_tray: bool) -> Action {
    if close_to_tray {
        Action::Hide
    } else {
        Action::Quit
    }
}

/// What closing the window asks for: where it closes to the tray it is only hidden.
pub fn close_action(close_to_tray: bool) -> (action: Action)
    ensures
        action == closing(close_to_tray),
        action == if close_to_tray {
            Action::Hide
        } else {
            Action::Quit
        },
{
    if close_to_tray {
        Action::Hide
    } else {
        Action::Quit
    }
}

/// From 0.999 on a window is not layered, and its opacity is not set. Below that it is layered: at
/// a half and less it gets a half of 255, rounded up, above a half the byte nearest to its share of
/// 255, up to rounding, and what is no number gets nothing.
pub proof fn law_opacity_decides_the_layer(opacity: Binary64, style: isize)
    ensures
        ({
            let alpha = layer_plan(opacity, style).alpha;
            let limit = Binary64 { bits: 0x3fef_f7ce_d916_872b };
            let half = Binary64 { bits: HALF };
            &&& opacity.nan() ==> alpha == Some(0u8)
            &&& !opacity.nan() && opacity.units() >= limit.units() ==> alpha is None
            &&& !opacity.nan() && opacity.units() <= half.units() ==> alpha == Some(128u8)
            &&& !opacity.nan() && half.units() <= opacity.units() < limit.units() ==> (
            alpha matches Some(byte) && {
                let exact = opacity.units() * 255;
                let shown = byte * binary64::one();
                &&& 0x20_0000_0000_0000 * (2 * (shown - exact) - binary64::one()) <= 2 * exact
                &&& 0x20_0000_0000_0000 * (2 * (exact - shown) - binary64::one()) <= 2 * exact
            })
        }),
{
    let limit = Binary64 { bits: OPAQUE };
    let half = Binary64 { bits: HALF };
    let one = Binary64 { bits: ONE };
    binary64::lemma_positive_order(half, limit);
    binary64::lemma_positive_order(limit, one);
    if !opacity.nan() {
        binary64::lemma_clamped_pattern(opacity);
        binary64::lemma_byte_range(shown_opacity(opacity));
        binary64::law_byte_is_the_nearest(shown_opacity(opacity));
        if opacity.units() <= half.units() {
            binary64::lemma_half_is_128(opacity);
        }
    }
}

/// Each item of the menu does what it says, and nothing else does anything.
pub proof fn law_items_of_the_menu(id: Seq<char>)
    ensures
        item_action("open"@) == Action::Open,
        item_action("refresh"@) == Action::Refresh,
        item_action("settings"@) == Action::Settings,
        item_action("quit"@) == Action::Quit,
        id != "open"@ && id != "refresh"@ && id != "settings"@ && id != "quit"@ ==> item_action(id)
            == Action::Nothing,
{
    reveal_strlit("open");
    reveal_strlit("refresh");
    reveal_strlit("settings");
    reveal_strlit("quit");
    assert("open"@[0] == 'o' && "refresh"@[0] == 'r' && "settings"@[0] == 's' && "quit"@[0] == 'q');
}

/// Closing hides the window where it closes to the tray, and else ends the application.
pub proof fn law_closing_hides_or_quits()
    ensures
        closing(true) == Action::Hide,
        closing(false) == Action::Quit,
{
}

} // verus!
