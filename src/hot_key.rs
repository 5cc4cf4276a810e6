//! Actions bound to hot keys, and the two encodings of modifier keys.

use itertools::Itertools;
use vstd::prelude::*;

verus! {

/// What a hot key asks the reader to do.
#[derive(Debug, Copy, Clone, PartialEq, Eq, PartialOrd, Ord, Hash)]
pub enum Action {
    Read,
    Close,
    ReloadSettings,
    OpenSettings,
    ToggleWindowVisible,
    PlayPause,
    RateDown,
    RateUp,
}

/// Every action, in declaration order.
pub const ACTION_LIST: [Action; 8] = [
    Action::Read,
    Action::Close,
    Action::ReloadSettings,
    Action::OpenSettings,
    Action::ToggleWindowVisible,
    Action::PlayPause,
    Action::RateDown,
    Action::RateUp,
];

/// The name under which an action is stored in the settings.
pub open spec fn action_name(a: Action) -> Seq<char> {
    match a {
        Action::Read => "read"@,
        Action::Close => "close"@,
        Action::ReloadSettings => "reload_settings"@,
        Action::OpenSettings => "open_settings"@,
        Action::ToggleWindowVisible => "toggle_window_visible"@,
        Action::PlayPause => "play_pause"@,
        Action::RateDown => "rate_down"@,
        Action::RateUp => "rate_up"@,
    }
}

impl Action {
    /// The name under which the action is stored in the settings.
    pub fn name(&self) -> (r: &'static str)
        ensures
            r@ == action_name(*self),
    {
        match self {
            Action::Read => "read",
            Action::Close => "close",
            Action::ReloadSettings => "reload_settings",
            Action::OpenSettings => "open_settings",
            Action::ToggleWindowVisible => "toggle_window_visible",
            Action::PlayPause => "play_pause",
            Action::RateDown => "rate_down",
            Action::RateUp => "rate_up",
        }
    }
}

/// The texts of `parts` with `sep` between each two.
pub open spec fn joined(parts: Seq<Seq<char>>, sep: Seq<char>) -> Seq<char>
    decreases parts.len(),
{
    if parts.len() == 0 {
        seq![]
    } else if parts.len() == 1 {
        parts[0]
    } else {
        joined(parts.drop_last(), sep) + sep + parts.last()
    }
}

/// The texts of a sequence of string slices.
pub open spec fn str_views(parts: Seq<&str>) -> Seq<Seq<char>> {
    parts.map_values(|p: &str| p@)
}

/// Relies on itertools::Itertools::join: the parts in order, with `sep`
/// between each two.
#[verifier::external_body]
fn join(parts: &Vec<&str>, sep: &str) -> (r: String)
    ensures
        r@ == joined(str_views(parts@), sep@),
{
    parts.iter().join(sep)
}

/// Name of modifier bit `i` (Alt, Ctrl, Shift, Win).
pub open spec fn modifier_name(i: int) -> Seq<char> {
    if i == 0 {
        "Alt"@
    } else if i == 1 {
        "Ctr"@
    } else if i == 2 {
        "Sht"@
    } else {
        "Win"@
    }
}

/// Names of the modifier bits among the lowest `k` that are set, lowest first.
pub open spec fn modifier_names(modifiers: u32, k: nat) -> Seq<Seq<char>>
    decreases k,
{
    if k == 0 {
        seq![]
    } else {
        let rest = modifier_names(modifiers, (k - 1) as nat);
        if modifiers & (1u32 << (k - 1) as u32) != 0 {
            rest.push(modifier_name(k - 1))
        } else {
            rest
        }
    }
}

fn name_of(i: usize) -> (r: &'static str)
    requires
        i < 4,
    ensures
        r@ == modifier_name(i as int),
{
    if i == 0 {
        "Alt"
    } else if i == 1 {
        "Ctr"
    } else if i == 2 {
        "Sht"
    } else {
        "Win"
    }
}

/// The set modifiers among Alt (bit 0), Ctrl (bit 1), Shift (bit 2) and Win
/// (bit 3), named and joined by `+`.
pub fn convert_modifiers(modifiers: u32) -> (r: String)
    ensures
        r@ == joined(modifier_names(modifiers, 4), "+"@),
{
    let mut parts: Vec<&str> = Vec::new();
    let mut i: usize = 0;
    while i < 4
        invariant
            i <= 4,
            str_views(parts@) == modifier_names(modifiers, i as nat),
        decreases 4 - i,
    {
        if modifiers & (1u32 << i as u32) != 0 {
            let ghost before = parts@;
            parts.push(name_of(i));
            proof {
                assert(str_views(parts@) =~= str_views(before).push(modifier_name(i as int)));
            }
        }
        i = i + 1;
    }
    join(&parts, "+")
}

/// Swaps the Alt and Shift bits (bits 0 and 2), the two places where the
/// hot-key registration and the hot-key control order them differently.
pub fn convert_mod(modifiers: u8) -> (r: u8)
    ensures
        r & 0xFA == modifiers & 0xFA,
        (r & 1 != 0) == (modifiers & 4 != 0),
        (r & 4 != 0) == (modifiers & 1 != 0),
{
    let alt_to_shift: u8 = if (modifiers & 1) > 0 {
        4
    } else {
        0
    };
    let shift_to_alt: u8 = if (modifiers & 4) > 0 {
        1
    } else {
        0
    };
    let to_modifiers = (modifiers & !5u8) | alt_to_shift | shift_to_alt;
    assert(to_modifiers & 0xFA == modifiers & 0xFA && (to_modifiers & 1 != 0) == (shift_to_alt
        != 0) && (to_modifiers & 4 != 0) == (alt_to_shift != 0)) by (bit_vector)
        requires
            to_modifiers == (modifiers & !5u8) | alt_to_shift | shift_to_alt,
            alt_to_shift == 0 || alt_to_shift == 4,
            shift_to_alt == 0 || shift_to_alt == 1,
    ;
    assert((modifiers & 1 > 0) == (modifiers & 1 != 0)) by (bit_vector);
    assert((modifiers & 4 > 0) == (modifiers & 4 != 0)) by (bit_vector);
    to_modifiers
}

} // verus!
