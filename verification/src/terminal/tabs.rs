//! Tab presentation for the terminal notebook: protocol icons, name
//! truncation, the adaptive display mode and the texts of a tab label.

use vstd::prelude::*;
use vstd::string::{StrSliceExecFns, StringExecFns};
use crate::strings::{push_char, str_eq, strip_prefix, to_lowercase, unicode_lowercase};
use crate::sidebar_ui::sidebar_protocol_icon;

verus! {

/// Tab display mode based on available space.
#[derive(Debug, Clone, Copy, PartialEq, Eq, Structural)]
pub enum TabDisplayMode {
    /// Full mode: icon + full name (default)
    Full,
    /// Compact mode: icon + truncated name
    Compact,
    /// Icon mode: icon only
    IconOnly,
}

impl Default for TabDisplayMode {
    fn default() -> (m: Self)
        ensures
            m == TabDisplayMode::Full,
    {
        TabDisplayMode::Full
    }
}

/// The icon of a zero-trust provider.
pub open spec fn zerotrust_icon(provider: Seq<char>) -> Seq<char> {
    if provider == "aws"@ || provider == "aws_ssm"@ {
        "network-workgroup-symbolic"@
    } else if provider == "gcloud"@ || provider == "gcp_iap"@ {
        "weather-overcast-symbolic"@
    } else if provider == "azure"@ || provider == "azure_bastion"@ {
        "weather-few-clouds-symbolic"@
    } else if provider == "azure_ssh"@ {
        "weather-showers-symbolic"@
    } else if provider == "oci"@ || provider == "oci_bastion"@ {
        "drive-harddisk-symbolic"@
    } else if provider == "cloudflare"@ || provider == "cloudflare_access"@ {
        "security-high-symbolic"@
    } else if provider == "teleport"@ {
        "emblem-system-symbolic"@
    } else if provider == "tailscale"@ || provider == "tailscale_ssh"@ {
        "network-vpn-symbolic"@
    } else if provider == "boundary"@ {
        "dialog-password-symbolic"@
    } else if provider == "generic"@ {
        "system-run-symbolic"@
    } else {
        "folder-remote-symbolic"@
    }
}

/// The icon of a plain protocol name.
pub open spec fn plain_protocol_icon(protocol: Seq<char>) -> Seq<char> {
    if protocol == "ssh"@ {
        "network-server-symbolic"@
    } else if protocol == "rdp"@ {
        "computer-symbolic"@
    } else if protocol == "vnc"@ {
        "video-display-symbolic"@
    } else if protocol == "spice"@ {
        "video-x-generic-symbolic"@
    } else if protocol == "zerotrust"@ {
        "folder-remote-symbolic"@
    } else {
        "network-server-symbolic"@
    }
}

/// The icon of a tab's protocol: `zerotrust:provider` picks the provider's
/// icon; any other protocol is matched after lower-casing.
pub open spec fn tab_protocol_icon(protocol: Seq<char>) -> Seq<char> {
    if "zerotrust:"@.is_prefix_of(protocol) {
        zerotrust_icon(protocol.skip(10))
    } else {
        plain_protocol_icon(unicode_lowercase(protocol))
    }
}

/// The icon name of a zero-trust provider.
pub fn zerotrust_provider_icon(provider: &str) -> (icon: &'static str)
    ensures
        icon@ == zerotrust_icon(provider@),
{
    if str_eq(provider, "aws") || str_eq(provider, "aws_ssm") {
        "network-workgroup-symbolic"
    } else if str_eq(provider, "gcloud") || str_eq(provider, "gcp_iap") {
        "weather-overcast-symbolic"
    } else if str_eq(provider, "azure") || str_eq(provider, "azure_bastion") {
        "weather-few-clouds-symbolic"
    } else if str_eq(provider, "azure_ssh") {
        "weather-showers-symbolic"
    } else if str_eq(provider, "oci") || str_eq(provider, "oci_bastion") {
        "drive-harddisk-symbolic"
    } else if str_eq(provider, "cloudflare") || str_eq(provider, "cloudflare_access") {
        "security-high-symbolic"
    } else if str_eq(provider, "teleport") {
        "emblem-system-symbolic"
    } else if str_eq(provider, "tailscale") || str_eq(provider, "tailscale_ssh") {
        "network-vpn-symbolic"
    } else if str_eq(provider, "boundary") {
        "dialog-password-symbolic"
    } else if str_eq(provider, "generic") {
        "system-run-symbolic"
    } else {
        "folder-remote-symbolic"
    }
}

/// The icon name of a plain protocol name (matched exactly).
pub fn plain_icon(protocol: &str) -> (icon: &'static str)
    ensures
        icon@ == plain_protocol_icon(protocol@),
{
    if str_eq(protocol, "ssh") {
        "network-server-symbolic"
    } else if str_eq(protocol, "rdp") {
        "computer-symbolic"
    } else if str_eq(protocol, "vnc") {
        "video-display-symbolic"
    } else if str_eq(protocol, "spice") {
        "video-x-generic-symbolic"
    } else if str_eq(protocol, "zerotrust") {
        "folder-remote-symbolic"
    } else {
        "network-server-symbolic"
    }
}

/// Gets the icon name for a protocol (see `tab_protocol_icon`).
pub fn get_protocol_icon(protocol: &str) -> (icon: &'static str)
    ensures
        icon@ == tab_protocol_icon(protocol@),
{
    proof {
        reveal_strlit("zerotrust:");
    }
    match strip_prefix(protocol, "zerotrust:") {
        Some(provider) => zerotrust_provider_icon(provider),
        None => {
            let lower = to_lowercase(protocol);
            plain_icon(lower.as_str())
        },
    }
}

/// `name` cut to `max_chars` characters, the last one replaced by an
/// ellipsis, when it has more than `max_chars` characters.
pub open spec fn truncated_name(name: Seq<char>, max_chars: nat) -> Seq<char> {
    if name.len() <= max_chars {
        name
    } else {
        name.take(max_chars - 1).push('\u{2026}')
    }
}

/// Truncates a name to `max_chars` characters with an ellipsis.
pub fn truncate_name(name: &str, max_chars: usize) -> (r: String)
    requires
        max_chars >= 1 || name@.len() == 0,
    ensures
        r@ == truncated_name(name@, max_chars as nat),
{
    let n = name.unicode_len();
    if n <= max_chars {
        name.to_owned()
    } else {
        let prefix = name.substring_char(0, max_chars - 1);
        let mut r = prefix.to_owned();
        push_char(&mut r, '\u{2026}');
        proof {
            assert(name@.subrange(0, max_chars - 1) =~= name@.take(max_chars - 1));
        }
        r
    }
}

/// Minimum width of a tab in full mode.
pub const MIN_FULL_TAB_WIDTH: i32 = 150;

/// Minimum width of a tab in compact mode.
pub const MIN_COMPACT_TAB_WIDTH: i32 = 80;

/// Minimum width of a tab in icon mode.
pub const MIN_ICON_TAB_WIDTH: i32 = 40;

/// The mode that fits `tab_count` tabs in `width`.
pub open spec fn fitting_mode(width: int, tab_count: int) -> TabDisplayMode {
    if width >= tab_count * 150 {
        TabDisplayMode::Full
    } else if width >= tab_count * 80 {
        TabDisplayMode::Compact
    } else {
        TabDisplayMode::IconOnly
    }
}

/// Decides the tab display for the notebook's `available_width`: `None`
/// when the width is not yet known (nothing changes); otherwise the mode to
/// use and whether the overflow button shows. Without tabs the mode stays
/// `current` and the overflow button hides.
pub fn tab_display_decision(available_width: i32, tab_count: usize, current: TabDisplayMode) -> (r:
    Option<(TabDisplayMode, bool)>)
    requires
        tab_count * 150 <= i32::MAX,
    ensures
        available_width <= 0 ==> r is None,
        available_width > 0 && tab_count == 0 ==> r == Some((current, false)),
        available_width > 0 && tab_count > 0 ==> r == Some(
            (
                fitting_mode(available_width as int, tab_count as int),
                available_width < tab_count * 40,
            ),
        ),
{
    if available_width <= 0 {
        return None;
    }
    if tab_count == 0 {
        return Some((current, false));
    }
    let n = tab_count as i32;
    let mode = if available_width >= n * MIN_FULL_TAB_WIDTH {
        TabDisplayMode::Full
    } else if available_width >= n * MIN_COMPACT_TAB_WIDTH {
        TabDisplayMode::Compact
    } else {
        TabDisplayMode::IconOnly
    };
    let need_overflow = available_width < n * MIN_ICON_TAB_WIDTH;
    Some((mode, need_overflow))
}

/// How a tab label shows in a display mode: `None` hides the text, otherwise
/// the text and the label's maximum width in characters.
pub open spec fn label_for_mode(full_name: Seq<char>, mode: TabDisplayMode) -> Option<
    (Seq<char>, int),
> {
    match mode {
        TabDisplayMode::Full => Some((full_name, 20)),
        TabDisplayMode::Compact => Some((truncated_name(full_name, 12), 12)),
        TabDisplayMode::IconOnly => None,
    }
}

/// The label of a tab in a display mode (see `label_for_mode`).
pub fn apply_display_mode_to_tab(full_name: &str, mode: TabDisplayMode) -> (r: Option<
    (String, i32),
>)
    ensures
        match r {
            Some((text, width)) => label_for_mode(full_name@, mode) == Some(
                (text@, width as int),
            ),
            None => label_for_mode(full_name@, mode) is None,
        },
{
    match mode {
        TabDisplayMode::Full => Some((full_name.to_owned(), 20)),
        TabDisplayMode::Compact => Some((truncate_name(full_name, 12), 12)),
        TabDisplayMode::IconOnly => None,
    }
}

/// The texts of a session tab.
pub struct TabLabelTexts {
    /// What screen readers announce
    pub accessible_label: String,
    /// The longer screen-reader description
    pub accessible_description: String,
    /// The tab's tooltip
    pub tooltip: String,
    /// The screen-reader label of the close button
    pub close_label: String,
    /// The tooltip of the tab's entry in the overflow menu
    pub overflow_tooltip: String,
    /// The protocol icon, the same one the sidebar shows for the protocol
    pub icon_name: &'static str,
}

/// Builds the texts of a session tab for `title`, `protocol` and `host`.
pub fn tab_label_texts(title: &str, protocol: &str, host: &str) -> (t: TabLabelTexts)
    ensures
        t.accessible_label@ == title@ + " - "@ + protocol@ + " session"@,
        t.accessible_description@ == if host@.len() == 0 {
            protocol@ + " session tab. Drag to split pane or click close to end session."@
        } else {
            protocol@ + " session to "@ + host@
                + ". Drag to split pane or click close to end session."@
        },
        t.tooltip@ == if host@.len() == 0 {
            title@ + "\nDrag to split pane"@
        } else {
            title@ + "\n"@ + host@ + "\nDrag to split pane"@
        },
        t.close_label@ == "Close "@ + title@ + " session"@,
        t.overflow_tooltip@ == if host@.len() == 0 {
            title@
        } else {
            title@ + "\n"@ + host@
        },
        t.icon_name@ == sidebar_protocol_icon(protocol@),
{
    let mut accessible_label = title.to_owned();
    accessible_label.append(" - ");
    accessible_label.append(protocol);
    accessible_label.append(" session");

    let mut accessible_description = protocol.to_owned();
    if host.is_empty() {
        accessible_description.append(
            " session tab. Drag to split pane or click close to end session.",
        );
    } else {
        accessible_description.append(" session to ");
        accessible_description.append(host);
        accessible_description.append(". Drag to split pane or click close to end session.");
    }

    let mut tooltip = title.to_owned();
    if !host.is_empty() {
        tooltip.append("\n");
        tooltip.append(host);
    }
    tooltip.append("\nDrag to split pane");

    let mut close_label = String::new();
    close_label.append("Close ");
    close_label.append(title);
    close_label.append(" session");

    let mut overflow_tooltip = title.to_owned();
    if !host.is_empty() {
        overflow_tooltip.append("\n");
        overflow_tooltip.append(host);
    }

    proof {
        assert(accessible_label@ =~= title@ + " - "@ + protocol@ + " session"@);
        assert(close_label@ =~= "Close "@ + title@ + " session"@);
        if host@.len() != 0 {
            assert(accessible_description@ =~= protocol@ + " session to "@ + host@
                + ". Drag to split pane or click close to end session."@);
            assert(tooltip@ =~= title@ + "\n"@ + host@ + "\nDrag to split pane"@);
        }
    }
    TabLabelTexts {
        accessible_label,
        accessible_description,
        tooltip,
        close_label,
        overflow_tooltip,
        icon_name: crate::sidebar_ui::get_protocol_icon(protocol),
    }
}

} // verus!
