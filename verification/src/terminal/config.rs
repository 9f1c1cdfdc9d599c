//! Terminal behaviour settings: cursor appearance from the settings' names,
//! the copy/paste shortcuts, the context menu, and which automation rules
//! become triggers.

use vstd::prelude::*;
use crate::strings::{str_eq, string_views};

verus! {

/// Cursor blinking.
#[derive(Debug, Clone, Copy, PartialEq, Eq, Structural)]
pub enum CursorBlinkMode {
    /// Follow the system setting
    System,
    /// Always blink
    On,
    /// Never blink
    Off,
}

/// Cursor shape.
#[derive(Debug, Clone, Copy, PartialEq, Eq, Structural)]
pub enum CursorShape {
    /// A filled block
    Block,
    /// A vertical bar
    Ibeam,
    /// An underline
    Underline,
}

/// The blink mode a setting names: `On`, `Off`, `System`; anything else blinks.
pub open spec fn blink_mode_for(setting: Seq<char>) -> CursorBlinkMode {
    if setting == "Off"@ {
        CursorBlinkMode::Off
    } else if setting == "System"@ {
        CursorBlinkMode::System
    } else {
        CursorBlinkMode::On
    }
}

/// The cursor shape a setting names: `Block`, `IBeam`, `Underline`; anything
/// else is a block.
pub open spec fn shape_for(setting: Seq<char>) -> CursorShape {
    if setting == "IBeam"@ {
        CursorShape::Ibeam
    } else if setting == "Underline"@ {
        CursorShape::Underline
    } else {
        CursorShape::Block
    }
}

/// Reads the cursor blink mode from its setting.
pub fn cursor_blink_mode(setting: &str) -> (m: CursorBlinkMode)
    ensures
        m == blink_mode_for(setting@),
{
    proof {
        reveal_strlit("On");
        reveal_strlit("Off");
        reveal_strlit("System");
        assert("On"@.len() == 2 && "Off"@.len() == 3 && "System"@.len() == 6);
        assert("On"@ != "Off"@ && "On"@ != "System"@);
    }
    if str_eq(setting, "On") {
        CursorBlinkMode::On
    } else if str_eq(setting, "Off") {
        CursorBlinkMode::Off
    } else if str_eq(setting, "System") {
        CursorBlinkMode::System
    } else {
        CursorBlinkMode::On
    }
}

/// Reads the cursor shape from its setting.
pub fn cursor_shape(setting: &str) -> (s: CursorShape)
    ensures
        s == shape_for(setting@),
{
    proof {
        reveal_strlit("Block");
        reveal_strlit("IBeam");
        reveal_strlit("Underline");
        assert("Block"@.len() == 5 && "IBeam"@.len() == 5 && "Underline"@.len() == 9);
        assert("Block"@[0] != "IBeam"@[0]);
        assert("Block"@ != "IBeam"@ && "Block"@ != "Underline"@);
    }
    if str_eq(setting, "Block") {
        CursorShape::Block
    } else if str_eq(setting, "IBeam") {
        CursorShape::Ibeam
    } else if str_eq(setting, "Underline") {
        CursorShape::Underline
    } else {
        CursorShape::Block
    }
}

/// A clipboard shortcut of the terminal.
#[derive(Debug, Clone, Copy, PartialEq, Eq, Structural)]
pub enum TerminalShortcut {
    /// Copy the selection as text
    Copy,
    /// Paste the clipboard
    Paste,
}

/// The shortcut a key press triggers: with Control and Shift held, `C`/`c`
/// copies and `V`/`v` pastes; nothing else is taken.
pub fn shortcut_for_key(control_and_shift: bool, key_name: Option<&str>) -> (r: Option<
    TerminalShortcut,
>)
    ensures
        r == (if !control_and_shift {
            None
        } else {
            match key_name {
                Some(k) => if k@ == "C"@ || k@ == "c"@ {
                    Some(TerminalShortcut::Copy)
                } else if k@ == "V"@ || k@ == "v"@ {
                    Some(TerminalShortcut::Paste)
                } else {
                    None
                },
                None => None,
            }
        }),
{
    if !control_and_shift {
        return None;
    }
    match key_name {
        Some(k) => {
            if str_eq(k, "C") || str_eq(k, "c") {
                Some(TerminalShortcut::Copy)
            } else if str_eq(k, "V") || str_eq(k, "v") {
                Some(TerminalShortcut::Paste)
            } else {
                None
            }
        },
        None => None,
    }
}

/// The entries of the terminal's context menu: label and action.
pub fn context_menu_entries() -> (entries: Vec<(&'static str, &'static str)>)
    ensures
        entries@.len() == 3,
        entries@[0].0@ == "Copy"@ && entries@[0].1@ == "terminal.copy"@,
        entries@[1].0@ == "Paste"@ && entries@[1].1@ == "terminal.paste"@,
        entries@[2].0@ == "Select All"@ && entries@[2].1@ == "terminal.select-all"@,
{
    let mut entries: Vec<(&'static str, &'static str)> = Vec::new();
    entries.push(("Copy", "terminal.copy"));
    entries.push(("Paste", "terminal.paste"));
    entries.push(("Select All", "terminal.select-all"));
    entries
}

/// An expect rule of a connection's automation.
pub struct ExpectRule {
    /// Regular expression to watch for in the output
    pub pattern: String,
    /// Text sent when the pattern matches
    pub response: String,
    /// Whether the rule is active
    pub enabled: bool,
}

/// Whether `regex::Regex::new` accepts a pattern.
pub uninterp spec fn regex_compiles(pattern: Seq<char>) -> bool;

/// Compiles `pattern` with `regex::Regex::new` and reports whether that
/// succeeded; the answer is the one `regex_compiles` names.
#[verifier::external_body]
pub(crate) fn pattern_compiles(pattern: &str) -> (ok: bool)
    ensures
        ok == regex_compiles(pattern@),
{
    regex::Regex::new(pattern).is_ok()
}

/// The rules that become triggers, as (pattern, response): the enabled ones
/// whose pattern compiles, in order.
pub open spec fn trigger_rules(rules: Seq<ExpectRule>) -> Seq<(Seq<char>, Seq<char>)>
    decreases rules.len(),
{
    if rules.len() == 0 {
        Seq::empty()
    } else {
        let rest = trigger_rules(rules.drop_last());
        let r = rules.last();
        if r.enabled && regex_compiles(r.pattern@) {
            rest.push((r.pattern@, r.response@))
        } else {
            rest
        }
    }
}

/// Selects the automation rules that become triggers (see `trigger_rules`).
pub fn automation_triggers(rules: &Vec<ExpectRule>) -> (triggers: Vec<(String, String)>)
    ensures
        triggers@.map_values(|t: (String, String)| (t.0@, t.1@)) == trigger_rules(rules@),
{
    let mut triggers: Vec<(String, String)> = Vec::new();
    let mut i: usize = 0;
    while i < rules.len()
        invariant
            i <= rules@.len(),
            triggers@.map_values(|t: (String, String)| (t.0@, t.1@)) == trigger_rules(
                rules@.take(i as int),
            ),
        decreases rules.len() - i,
    {
        proof {
            assert(rules@.take(i + 1).drop_last() =~= rules@.take(i as int));
        }
        let rule = &rules[i];
        if rule.enabled && pattern_compiles(rule.pattern.as_str()) {
            let ghost before = triggers@;
            triggers.push((rule.pattern.clone(), rule.response.clone()));
            proof {
                assert(triggers@.map_values(|t: (String, String)| (t.0@, t.1@)) =~= before.map_values(
                    |t: (String, String)| (t.0@, t.1@),
                ).push((rule.pattern@, rule.response@)));
            }
        }
        i += 1;
    }
    proof {
        assert(rules@.take(rules@.len() as int) =~= rules@);
    }
    triggers
}

} // verus!
