//! Behavior settings: key bindings, modes, sizes, and where themes lie.
use crate::entry::AppMode;
use crate::path::{below, join_path};
use crate::scan::{lower, lowered};
use crate::text::{
    chars_of, eq_str, lower_of, or_default, same_str, split_char, split_on, string_of, texts, to_lower, trim,
    trimmed, views,
};
use crate::theme::owned;
use vstd::prelude::*;

verus! {

// ---------------------------------------------------------------------------
// Keys
// ---------------------------------------------------------------------------

/// A set of modifier keys, one bit each.
#[derive(Debug, Clone, Copy, PartialEq, Eq, Structural)]
pub struct Modifiers(pub u8);

impl Modifiers {
    pub const CTRL: u8 = 1;

    pub const SHIFT: u8 = 2;

    pub const ALT: u8 = 4;

    pub const SUPER: u8 = 8;

    /// Whether one of the flags is set.
    pub fn contains(self, flag: u8) -> (r: bool)
        ensures
            r == (self.0 & flag != 0),
    {
        self.0 & flag != 0
    }

    /// Whether no flag is set.
    pub fn empty(self) -> (r: bool)
        ensures
            r == (self.0 == 0),
    {
        self.0 == 0
    }
}

impl Default for Modifiers {
    fn default() -> (r: Self)
        ensures
            r == Modifiers(0),
    {
        Modifiers(0)
    }
}

/// The flag that a modifier's name stands for.
pub open spec fn modifier_flag(name: Seq<char>) -> Option<u8> {
    let n = lowered(name);
    if n == "ctrl"@ || n == "control"@ {
        Some(Modifiers::CTRL)
    } else if n == "shift"@ {
        Some(Modifiers::SHIFT)
    } else if n == "alt"@ || n == "meta"@ {
        Some(Modifiers::ALT)
    } else if n == "super"@ || n == "win"@ || n == "mod4"@ {
        Some(Modifiers::SUPER)
    } else {
        None
    }
}

fn flag_of(name: &[char]) -> (r: Option<u8>)
    ensures
        r == modifier_flag(name@),
{
    let n = lower(name);
    let s = n.as_slice();
    if eq_str(s, "ctrl") || eq_str(s, "control") {
        Some(Modifiers::CTRL)
    } else if eq_str(s, "shift") {
        Some(Modifiers::SHIFT)
    } else if eq_str(s, "alt") || eq_str(s, "meta") {
        Some(Modifiers::ALT)
    } else if eq_str(s, "super") || eq_str(s, "win") || eq_str(s, "mod4") {
        Some(Modifiers::SUPER)
    } else {
        None
    }
}

/// The flags of a list of modifier names; nothing if one of them is unknown.
pub open spec fn flags_of(parts: Seq<Seq<char>>) -> Option<u8>
    decreases parts.len(),
{
    if parts.len() == 0 {
        Some(0)
    } else {
        match flags_of(parts.drop_last()) {
            None => None,
            Some(m) => match modifier_flag(trimmed(parts.last())) {
                None => None,
                Some(f) => Some(m | f),
            },
        }
    }
}

/// A key combination: modifiers joined by plus signs in front of a key, whose
/// name is kept in lower case.
pub open spec fn key_combo(s: Seq<char>) -> Option<(u8, Seq<char>)> {
    let parts = split_on(s, '+');
    let key = trimmed(parts.last());
    match flags_of(parts.drop_last()) {
        None => None,
        Some(m) => if key.len() == 0 {
            None
        } else {
            Some((m, lower_of(key)))
        },
    }
}

proof fn lemma_flags_stop(parts: Seq<Seq<char>>, i: int)
    requires
        0 <= i <= parts.len(),
        flags_of(parts.take(i)) is None,
    ensures
        flags_of(parts) is None,
    decreases parts.len() - i,
{
    if i < parts.len() {
        assert(parts.take(i + 1).drop_last() =~= parts.take(i));
        lemma_flags_stop(parts, i + 1);
    } else {
        assert(parts.take(i) =~= parts);
    }
}

/// Read a key combination such as `Ctrl+Return`.
pub fn parse_key_combo(s: &str) -> (r: Option<(Modifiers, String)>)
    ensures
        r is Some <==> key_combo(s@) is Some,
        r matches Some((m, k)) ==> key_combo(s@) == Some((m.0, k@)),
{
    let c = chars_of(s);
    let parts = split_char(c.as_slice(), '+');
    let ghost pv = views(parts@);
    let n: usize = parts.len();
    let ghost mods = pv.drop_last();
    let mut flags: u8 = 0;
    let mut i: usize = 0;
    proof {
        assert(mods.take(0) =~= Seq::empty());
    }
    while i < n - 1
        invariant
            n == parts@.len(),
            n >= 1,
            i <= n - 1,
            pv == views(parts@),
            pv == split_on(s@, '+'),
            mods == pv.drop_last(),
            flags_of(mods.take(i as int)) == Some(flags),
        decreases n - i,
    {
        proof {
            assert(mods.take(i + 1).drop_last() =~= mods.take(i as int));
            assert(mods.take(i + 1).last() == parts@[i as int]@);
        }
        match flag_of(trim(parts[i].as_slice())) {
            Some(f) => {
                flags = flags | f;
            },
            None => {
                proof {
                    lemma_flags_stop(mods, i + 1);
                }
                return None;
            },
        }
        i += 1;
    }
    proof {
        assert(mods.take(n - 1) =~= mods);
        assert(pv.last() == parts@[n - 1]@);
    }
    let key = trim(parts[n - 1].as_slice());
    if key.len() == 0 {
        return None;
    }
    let name = string_of(key);
    Some((Modifiers(flags), to_lower(name.as_str())))
}

/// What a key combination does to a launch.
#[derive(Debug)]
pub struct KeyBinding {
    /// The combination as written.
    pub key: String,
    /// A command to put in front.
    pub prefix: Option<String>,
    pub modifiers: Modifiers,
    /// The key's name in lower case.
    pub key_name: String,
}

/// The mathematical content of a binding.
pub struct BindingView {
    pub key: Seq<char>,
    pub prefix: Option<Seq<char>>,
    pub modifiers: u8,
    pub key_name: Seq<char>,
}

impl View for KeyBinding {
    type V = BindingView;

    open spec fn view(&self) -> BindingView {
        BindingView {
            key: self.key@,
            prefix: crate::node::opt_view(self.prefix),
            modifiers: self.modifiers.0,
            key_name: self.key_name@,
        }
    }
}

pub open spec fn binding_views(l: Seq<KeyBinding>) -> Seq<BindingView> {
    Seq::new(l.len(), |i: int| l[i]@)
}

/// A binding as the settings file has it.
#[derive(Debug)]
pub struct RawBinding {
    pub key: String,
    pub prefix: Option<String>,
}

/// A text that is there and not empty.
pub open spec fn filled(o: Option<String>) -> Option<Seq<char>> {
    match o {
        Some(s) => if s@.len() == 0 {
            None
        } else {
            Some(s@)
        },
        None => None,
    }
}

/// The bindings whose combination can be read, in order.
pub open spec fn read_bindings(l: Seq<RawBinding>) -> Seq<BindingView>
    decreases l.len(),
{
    if l.len() == 0 {
        Seq::empty()
    } else {
        let before = read_bindings(l.drop_last());
        let raw = l.last();
        match key_combo(raw.key@) {
            Some((m, k)) => before.push(
                BindingView {
                    key: raw.key@,
                    prefix: filled(raw.prefix),
                    modifiers: m,
                    key_name: k,
                },
            ),
            None => before,
        }
    }
}

/// Return alone, and Return with Ctrl, both without a prefix.
pub open spec fn standard_bindings() -> Seq<BindingView> {
    seq![
        BindingView { key: "Return"@, prefix: None, modifiers: 0, key_name: "return"@ },
        BindingView { key: "Ctrl+Return"@, prefix: None, modifiers: Modifiers::CTRL, key_name: "return"@ },
    ]
}

pub fn default_bindings() -> (r: Vec<KeyBinding>)
    ensures
        binding_views(r@) == standard_bindings(),
{
    let mut v: Vec<KeyBinding> = Vec::new();
    v.push(
        KeyBinding {
            key: owned("Return"),
            prefix: None,
            modifiers: Modifiers(0),
            key_name: owned("return"),
        },
    );
    v.push(
        KeyBinding {
            key: owned("Ctrl+Return"),
            prefix: None,
            modifiers: Modifiers(Modifiers::CTRL),
            key_name: owned("return"),
        },
    );
    proof {
        assert(binding_views(v@) =~= standard_bindings());
    }
    v
}

/// The bindings of a settings file, the standard ones where it has none.
pub open spec fn effective_bindings(o: Option<Vec<RawBinding>>) -> Seq<BindingView> {
    let l = match o {
        Some(v) => read_bindings(v@),
        None => Seq::empty(),
    };
    if l.len() == 0 {
        standard_bindings()
    } else {
        l
    }
}

fn choose_bindings(o: &Option<Vec<RawBinding>>) -> (r: Vec<KeyBinding>)
    ensures
        binding_views(r@) == effective_bindings(*o),
{
    let mut out: Vec<KeyBinding> = Vec::new();
    proof {
        assert(binding_views(out@) =~= Seq::empty());
    }
    match o {
        Some(l) => {
            let mut i: usize = 0;
            proof {
                assert(l@.take(0) =~= Seq::empty());
            }
            while i < l.len()
                invariant
                    i <= l@.len(),
                    binding_views(out@) == read_bindings(l@.take(i as int)),
                decreases l@.len() - i,
            {
                let raw = &l[i];
                proof {
                    assert(l@.take(i + 1).drop_last() =~= l@.take(i as int));
                }
                match parse_key_combo(raw.key.as_str()) {
                    Some((m, k)) => {
                        let prefix = match &raw.prefix {
                            Some(p) => if chars_of(p.as_str()).len() == 0 {
                                None
                            } else {
                                Some(p.clone())
                            },
                            None => None,
                        };
                        let b = KeyBinding {
                            key: raw.key.clone(),
                            prefix,
                            modifiers: m,
                            key_name: k,
                        };
                        let ghost before = out@;
                        out.push(b);
                        proof {
                            assert(binding_views(out@) =~= binding_views(before).push(b@));
                        }
                    },
                    None => {},
                }
                i += 1;
            }
            proof {
                assert(l@.take(l@.len() as int) =~= l@);
            }
        },
        None => {},
    }
    proof {
        assert(binding_views(out@).len() == out@.len());
    }
    if out.len() == 0 {
        default_bindings()
    } else {
        out
    }
}

// ---------------------------------------------------------------------------
// Sections
// ---------------------------------------------------------------------------

/// Which modes are on.
#[derive(Debug, Clone, Copy, PartialEq, Eq, Structural)]
pub struct ModeConfig {
    pub drun: bool,
    pub run: bool,
    pub window: bool,
    pub calc: bool,
}

impl Default for ModeConfig {
    fn default() -> (r: Self)
        ensures
            r == (ModeConfig { drun: true, run: false, window: false, calc: false }),
    {
        ModeConfig { drun: true, run: false, window: false, calc: false }
    }
}

/// How the launcher takes the keyboard.
#[derive(Debug, Clone, Copy, PartialEq, Eq, Structural)]
pub enum KeyboardModeConfig {
    Exclusive,
    OnDemand,
}

/// Where text is aligned.
#[derive(Debug, Clone, Copy, PartialEq, Eq, Structural)]
pub enum TextAlign {
    Left,
    Center,
    Right,
}

/// A terminal and the flag in front of the command it runs.
#[derive(Debug)]
pub struct TerminalConfig {
    pub command: String,
    pub exec_flag: String,
}

/// Commands that list and activate windows.
#[derive(Debug)]
pub struct WindowConfig {
    pub list_command: Option<String>,
    pub activate_command: Option<String>,
}

pub open spec fn align_of(s: Seq<char>) -> TextAlign {
    let t = trimmed(lowered(s));
    if t == "center"@ || t == "middle"@ {
        TextAlign::Center
    } else if t == "right"@ {
        TextAlign::Right
    } else {
        TextAlign::Left
    }
}

pub fn parse_text_align(s: &str) -> (r: TextAlign)
    ensures
        r == align_of(s@),
{
    let c = chars_of(s);
    let l = lower(c.as_slice());
    let t = trim(l.as_slice());
    if eq_str(t, "center") || eq_str(t, "middle") {
        TextAlign::Center
    } else if eq_str(t, "right") {
        TextAlign::Right
    } else {
        TextAlign::Left
    }
}

pub open spec fn keyboard_of(o: Option<String>) -> KeyboardModeConfig {
    match o {
        Some(s) => if lowered(s@) == "on_demand"@ || lowered(s@) == "ondemand"@ {
            KeyboardModeConfig::OnDemand
        } else {
            KeyboardModeConfig::Exclusive
        },
        None => KeyboardModeConfig::Exclusive,
    }
}

pub fn parse_keyboard_mode(o: &Option<String>) -> (r: KeyboardModeConfig)
    ensures
        r == keyboard_of(*o),
{
    match o {
        Some(s) => {
            let c = chars_of(s.as_str());
            let l = lower(c.as_slice());
            if eq_str(l.as_slice(), "on_demand") || eq_str(l.as_slice(), "ondemand") {
                KeyboardModeConfig::OnDemand
            } else {
                KeyboardModeConfig::Exclusive
            }
        },
        None => KeyboardModeConfig::Exclusive,
    }
}

/// Terminals to look for, each with its flag, in order of preference.
pub open spec fn known_terminals() -> Seq<(Seq<char>, Seq<char>)> {
    seq![
        ("foot"@, "-e"@),
        ("alacritty"@, "-e"@),
        ("kitty"@, "--"@),
        ("wezterm"@, "start"@),
        ("gnome-terminal"@, "--"@),
        ("konsole"@, "-e"@),
        ("xfce4-terminal"@, "-e"@),
        ("xterm"@, "-e"@),
    ]
}

pub fn terminal_candidates() -> (r: Vec<(String, String)>)
    ensures
        crate::binding::pairs(r@) == known_terminals(),
{
    let mut v: Vec<(String, String)> = Vec::new();
    v.push((owned("foot"), owned("-e")));
    v.push((owned("alacritty"), owned("-e")));
    v.push((owned("kitty"), owned("--")));
    v.push((owned("wezterm"), owned("start")));
    v.push((owned("gnome-terminal"), owned("--")));
    v.push((owned("konsole"), owned("-e")));
    v.push((owned("xfce4-terminal"), owned("-e")));
    v.push((owned("xterm"), owned("-e")));
    proof {
        assert(crate::binding::pairs(v@) =~= known_terminals());
    }
    v
}

/// The position of the first installed candidate, zero where none is.
pub open spec fn first_installed(installed: Seq<bool>) -> int
    decreases installed.len(),
{
    if installed.len() == 0 {
        0
    } else {
        let before = first_installed(installed.drop_last());
        if installed.drop_last().contains(true) {
            before
        } else if installed.last() {
            installed.len() - 1
        } else {
            0
        }
    }
}

/// The terminal to use: the one that `TERMINAL` names, else the first that is
/// installed, else `foot`.
pub fn detect_terminal(named: &Option<String>, installed: &Vec<bool>) -> (r: TerminalConfig)
    requires
        installed@.len() == known_terminals().len(),
    ensures
        filled(*named) is Some ==> r.command@ == filled(*named)->0 && r.exec_flag@ == "-e"@,
        filled(*named) is None ==> ({
            let t = known_terminals()[first_installed(installed@)];
            r.command@ == t.0 && r.exec_flag@ == t.1
        }),
{
    match named {
        Some(t) => {
            if chars_of(t.as_str()).len() > 0 {
                return TerminalConfig { command: t.clone(), exec_flag: owned("-e") };
            }
        },
        None => {},
    }
    let all = terminal_candidates();
    proof {
        assert(crate::binding::pairs(all@).len() == all@.len());
    }
    let mut found: usize = 0;
    let mut seen = false;
    let mut i: usize = 0;
    proof {
        assert(installed@.take(0) =~= Seq::empty());
    }
    while i < installed.len()
        invariant
            i <= installed@.len(),
            found < 8,
            installed@.len() == 8,
            seen == installed@.take(i as int).contains(true),
            found == first_installed(installed@.take(i as int)),
        decreases installed@.len() - i,
    {
        proof {
            let t = installed@.take(i + 1);
            assert(t.drop_last() =~= installed@.take(i as int));
            assert(t =~= installed@.take(i as int).push(installed@[i as int]));
            if t.contains(true) {
                let k = choose|k: int| 0 <= k < t.len() && t[k];
                if k < i {
                    assert(installed@.take(i as int)[k]);
                }
            }
            if installed@.take(i as int).contains(true) {
                let k = choose|k: int|
                    0 <= k < installed@.take(i as int).len() && installed@.take(i as int)[k];
                assert(t[k]);
            }
            if installed@[i as int] {
                assert(t[i as int]);
            }
        }
        if !seen && installed[i] {
            found = i;
            seen = true;
        }
        i += 1;
    }
    proof {
        assert(installed@.take(installed@.len() as int) =~= installed@);
        assert(crate::binding::pairs(all@)[found as int] == known_terminals()[found as int]);
    }
    TerminalConfig { command: all[found].0.clone(), exec_flag: all[found].1.clone() }
}

/// Settings of the interface section, as the file has them.
#[derive(Debug)]
pub struct RawUi {
    pub auto_close_timeout_secs: Option<u64>,
    pub width: Option<i32>,
    pub height: Option<i32>,
    pub text_align: Option<String>,
    /// The number as text.
    pub freq_weight: Option<String>,
    pub keyboard_mode: Option<String>,
    pub theme: Option<String>,
}

#[derive(Debug, Clone, Copy)]
pub struct RawModes {
    pub drun: Option<bool>,
    pub run: Option<bool>,
    pub window: Option<bool>,
    pub calc: Option<bool>,
}

#[derive(Debug)]
pub struct RawTerminal {
    pub command: Option<String>,
    pub exec_flag: Option<String>,
}

/// A settings file.
#[derive(Debug)]
pub struct RawConfig {
    pub ui: RawUi,
    pub bindings: Option<Vec<RawBinding>>,
    pub mode: Option<RawModes>,
    pub terminal: Option<RawTerminal>,
    pub window: Option<WindowConfig>,
    /// The name in the theme section.
    pub theme_name: Option<String>,
}

/// How the launcher behaves.
#[derive(Debug)]
pub struct LauncherConfig {
    pub bindings: Vec<KeyBinding>,
    /// Zero never closes by itself.
    pub auto_close_timeout_secs: u64,
    pub window_width: i32,
    pub window_height: i32,
    pub modes: ModeConfig,
    pub terminal: TerminalConfig,
    pub window: WindowConfig,
    pub text_align: TextAlign,
    /// Weight of the launch frequency, as text.
    pub freq_weight: String,
    pub keyboard_mode: KeyboardModeConfig,
    pub theme: String,
}

fn string_or(o: Option<String>, default: &str) -> (r: String)
    ensures
        r@ == or_default(o, default@),
{
    match o {
        Some(s) => s,
        None => owned(default),
    }
}

pub open spec fn on(o: Option<bool>, default: bool) -> bool {
    match o {
        Some(b) => b,
        None => default,
    }
}

/// The modes of a settings file: applications are on unless switched off, the
/// others off unless switched on.
pub open spec fn effective_modes(o: Option<RawModes>) -> ModeConfig {
    match o {
        Some(m) => ModeConfig {
            drun: on(m.drun, true),
            run: on(m.run, false),
            window: on(m.window, false),
            calc: on(m.calc, false),
        },
        None => ModeConfig { drun: true, run: false, window: false, calc: false },
    }
}

fn is_on(o: Option<bool>, default: bool) -> (r: bool)
    ensures
        r == on(o, default),
{
    match o {
        Some(b) => b,
        None => default,
    }
}

fn choose_modes(o: Option<RawModes>) -> (r: ModeConfig)
    ensures
        r == effective_modes(o),
{
    match o {
        Some(m) => ModeConfig {
            drun: is_on(m.drun, true),
            run: is_on(m.run, false),
            window: is_on(m.window, false),
            calc: is_on(m.calc, false),
        },
        None => ModeConfig { drun: true, run: false, window: false, calc: false },
    }
}

/// The theme of a settings file: the theme section's name, else the interface
/// section's, else `default`.
pub open spec fn effective_theme(named: Option<String>, ui: Option<String>) -> Seq<char> {
    match named {
        Some(s) => s@,
        None => or_default(ui, "default"@),
    }
}

/// The lengths, times and weights of a settings file, with defaults for what it
/// leaves out.
pub open spec fn has_settings_of(r: LauncherConfig, ui: RawUi) -> bool {
    &&& r.auto_close_timeout_secs == (if ui.auto_close_timeout_secs is Some {
        ui.auto_close_timeout_secs->0
    } else {
        8
    })
    &&& r.window_width == (if ui.width is Some {
        ui.width->0
    } else {
        620
    })
    &&& r.window_height == (if ui.height is Some {
        ui.height->0
    } else {
        360
    })
    &&& r.freq_weight@ == or_default(ui.freq_weight, "0.8"@)
}

impl LauncherConfig {
    /// The settings that a file gives, with defaults for what it leaves out.
    pub fn with_defaults_from_toml(t: RawConfig, terminal: TerminalConfig) -> (r: LauncherConfig)
        ensures
            binding_views(r.bindings@) == effective_bindings(t.bindings),
            r.auto_close_timeout_secs == (match t.ui.auto_close_timeout_secs {
                Some(s) => s,
                None => 8,
            }),
            r.window_width == (match t.ui.width {
                Some(w) => w,
                None => 620,
            }),
            r.window_height == (match t.ui.height {
                Some(h) => h,
                None => 360,
            }),
            r.modes == effective_modes(t.mode),
            r.terminal.command@ == (match t.terminal {
                Some(x) => or_default(x.command, terminal.command@),
                None => terminal.command@,
            }),
            r.terminal.exec_flag@ == (match t.terminal {
                Some(x) => or_default(x.exec_flag, terminal.exec_flag@),
                None => terminal.exec_flag@,
            }),
            r.window == (match t.window {
                Some(w) => w,
                None => WindowConfig { list_command: None, activate_command: None },
            }),
            r.text_align == (match t.ui.text_align {
                Some(s) => align_of(s@),
                None => TextAlign::Left,
            }),
            r.freq_weight@ == or_default(t.ui.freq_weight, "0.8"@),
            r.keyboard_mode == keyboard_of(t.ui.keyboard_mode),
            r.theme@ == effective_theme(t.theme_name, t.ui.theme),
            has_settings_of(r, t.ui),
    {
        let bindings = choose_bindings(&t.bindings);
        let modes = choose_modes(t.mode);
        let term = match t.terminal {
            Some(x) => TerminalConfig {
                command: string_or(x.command, terminal.command.as_str()),
                exec_flag: string_or(x.exec_flag, terminal.exec_flag.as_str()),
            },
            None => terminal,
        };
        let window = match t.window {
            Some(w) => w,
            None => WindowConfig { list_command: None, activate_command: None },
        };
        let text_align = match &t.ui.text_align {
            Some(s) => parse_text_align(s.as_str()),
            None => TextAlign::Left,
        };
        let keyboard_mode = parse_keyboard_mode(&t.ui.keyboard_mode);
        let theme = match t.theme_name {
            Some(s) => s,
            None => string_or(t.ui.theme, "default"),
        };
        let secs: u64 = match t.ui.auto_close_timeout_secs {
            Some(s) => s,
            None => 8,
        };
        let width: i32 = match t.ui.width {
            Some(w) => w,
            None => 620,
        };
        let height: i32 = match t.ui.height {
            Some(h) => h,
            None => 360,
        };
        LauncherConfig {
            bindings,
            auto_close_timeout_secs: secs,
            window_width: width,
            window_height: height,
            modes,
            terminal: term,
            window,
            text_align,
            freq_weight: string_or(t.ui.freq_weight, "0.8"),
            keyboard_mode,
            theme,
        }
    }

    /// The modes that are on, in a fixed order.
    pub fn active_modes(&self) -> (r: Vec<AppMode>)
        ensures
            r@ == active(self.modes),
    {
        let mut v: Vec<AppMode> = Vec::new();
        if self.modes.drun {
            v.push(AppMode::Drun);
        }
        if self.modes.run {
            v.push(AppMode::Run);
        }
        if self.modes.window {
            v.push(AppMode::Window);
        }
        if self.modes.calc {
            v.push(AppMode::Calc);
        }
        proof {
            assert(v@ =~= active(self.modes));
        }
        v
    }

    /// The size that a theme without its own gets, at least one pixel each way.
    pub fn fallback_size(&self) -> (r: (u32, u32))
        ensures
            r.0 == (if self.window_width < 1 {
                1
            } else {
                self.window_width as u32
            }),
            r.1 == (if self.window_height < 1 {
                1
            } else {
                self.window_height as u32
            }),
    {
        let w: u32 = if self.window_width < 1 {
            1
        } else {
            self.window_width as u32
        };
        let h: u32 = if self.window_height < 1 {
            1
        } else {
            self.window_height as u32
        };
        (w, h)
    }
}

pub open spec fn one_if(b: bool, m: AppMode) -> Seq<AppMode> {
    if b {
        seq![m]
    } else {
        Seq::empty()
    }
}

pub open spec fn active(m: ModeConfig) -> Seq<AppMode> {
    one_if(m.drun, AppMode::Drun) + one_if(m.run, AppMode::Run) + one_if(m.window, AppMode::Window)
        + one_if(m.calc, AppMode::Calc)
}

// ---------------------------------------------------------------------------
// Themes
// ---------------------------------------------------------------------------

/// What a theme says of itself.
#[derive(Debug, Clone)]
pub struct ThemeManifest {
    pub name: String,
    pub description: String,
    /// Main file, below the theme's directory.
    pub main: String,
    pub author: String,
}

/// A place where a theme may lie: it is used if `probe` exists.
#[derive(Debug)]
pub struct ThemePlace {
    pub probe: String,
    pub dir: String,
}

pub open spec fn place_views(l: Seq<ThemePlace>) -> Seq<(Seq<char>, Seq<char>)> {
    Seq::new(l.len(), |i: int| (l[i].probe@, l[i].dir@))
}

/// Places in the user's directory. A single theme file there serves as the
/// default theme.
pub open spec fn user_places(theme: Seq<char>, config_dir: Seq<char>) -> Seq<(Seq<char>, Seq<char>)> {
    let base = below(config_dir, "hiren"@);
    let own = below(below(base, "themes"@), theme);
    if theme == "default"@ {
        seq![(own, own), (below(base, "theme.toml"@), base)]
    } else {
        seq![(own, own)]
    }
}

/// Places next to the program.
pub open spec fn program_places(theme: Seq<char>, exe_dir: Seq<char>) -> Seq<(Seq<char>, Seq<char>)> {
    let near = below(below(exe_dir, "themes"@), theme);
    let share = below(below(exe_dir, "../share/hiren/themes"@), theme);
    seq![(near, near), (share, share)]
}

pub open spec fn opt_places(
    o: Option<Seq<char>>,
    theme: Seq<char>,
    user: bool,
) -> Seq<(Seq<char>, Seq<char>)> {
    match o {
        None => Seq::empty(),
        Some(d) => if user {
            user_places(theme, d)
        } else {
            program_places(theme, d)
        },
    }
}

/// All places where a theme may lie, best first.
pub open spec fn theme_places(
    theme: Seq<char>,
    config_dir: Option<Seq<char>>,
    exe_dir: Option<Seq<char>>,
    source_dir: Seq<char>,
) -> Seq<(Seq<char>, Seq<char>)> {
    let dev = below(below(source_dir, "themes"@), theme);
    opt_places(config_dir, theme, true) + opt_places(exe_dir, theme, false) + seq![(dev, dev)]
}

fn push_place(v: &mut Vec<ThemePlace>, probe: &String, dir: &String)
    ensures
        place_views(final(v)@) == place_views(old(v)@).push((probe@, dir@)),
{
    v.push(ThemePlace { probe: probe.clone(), dir: dir.clone() });
    proof {
        assert(place_views(v@) =~= place_views(old(v)@).push((probe@, dir@)));
    }
}

/// List the places where a theme may lie, best first.
pub fn list_theme_places(
    theme: &str,
    config_dir: Option<&str>,
    exe_dir: Option<&str>,
    source_dir: &str,
) -> (r: Vec<ThemePlace>)
    ensures
        place_views(r@) == theme_places(
            theme@,
            crate::desktop::opt_str(config_dir),
            crate::desktop::opt_str(exe_dir),
            source_dir@,
        ),
{
    let mut v: Vec<ThemePlace> = Vec::new();
    proof {
        assert(place_views(v@) =~= Seq::empty());
    }
    match config_dir {
        Some(d) => {
            let base = join_path(d, "hiren");
            let all = join_path(base.as_str(), "themes");
            let own = join_path(all.as_str(), theme);
            push_place(&mut v, &own, &own);
            if same_str(theme, "default") {
                let single = join_path(base.as_str(), "theme.toml");
                push_place(&mut v, &single, &base);
            }
            proof {
                assert(place_views(v@) =~= user_places(theme@, d@));
            }
        },
        None => {},
    }
    let ghost user = place_views(v@);
    assert(user =~= opt_places(crate::desktop::opt_str(config_dir), theme@, true));
    match exe_dir {
        Some(d) => {
            let all = join_path(d, "themes");
            let near = join_path(all.as_str(), theme);
            push_place(&mut v, &near, &near);
            let far = join_path(d, "../share/hiren/themes");
            let share = join_path(far.as_str(), theme);
            push_place(&mut v, &share, &share);
            proof {
                assert(place_views(v@) =~= user + program_places(theme@, d@));
            }
        },
        None => {
            proof {
                assert(place_views(v@) =~= user + Seq::empty());
            }
        },
    }
    let all = join_path(source_dir, "themes");
    let dev = join_path(all.as_str(), theme);
    push_place(&mut v, &dev, &dev);
    proof {
        assert(place_views(v@) =~= theme_places(
            theme@,
            crate::desktop::opt_str(config_dir),
            crate::desktop::opt_str(exe_dir),
            source_dir@,
        ));
    }
    v
}

/// The files that a theme's directory may hold it in, best first.
pub open spec fn theme_file_paths(dir: Seq<char>) -> Seq<Seq<char>> {
    seq![below(dir, "theme.toml"@), below(dir, "main.toml"@), below(dir, "theme/main.toml"@)]
}

pub fn theme_files(dir: &str) -> (r: Vec<String>)
    ensures
        texts(r@) == theme_file_paths(dir@),
{
    let mut v: Vec<String> = Vec::new();
    v.push(join_path(dir, "theme.toml"));
    v.push(join_path(dir, "main.toml"));
    v.push(join_path(dir, "theme/main.toml"));
    proof {
        assert(texts(v@) =~= theme_file_paths(dir@));
    }
    v
}

/// The first place that exists, else the fallback.
pub open spec fn chosen_place(
    places: Seq<(Seq<char>, Seq<char>)>,
    exists_there: Seq<bool>,
    fallback: Seq<char>,
) -> Seq<char>
    decreases places.len(),
{
    if places.len() == 0 {
        fallback
    } else if exists_there[0] {
        places[0].1
    } else {
        chosen_place(places.skip(1), exists_there.skip(1), fallback)
    }
}

/// Choose where to load a theme from, given which places exist.
pub fn choose_theme_place(places: &Vec<ThemePlace>, there: &Vec<bool>, fallback: &str) -> (r: String)
    requires
        there@.len() == places@.len(),
    ensures
        r@ == chosen_place(place_views(places@), there@, fallback@),
{
    let ghost pv = place_views(places@);
    let mut i: usize = 0;
    proof {
        assert(pv.skip(0) =~= pv);
        assert(there@.skip(0) =~= there@);
    }
    while i < places.len()
        invariant
            i <= places@.len(),
            there@.len() == places@.len(),
            pv == place_views(places@),
            chosen_place(pv, there@, fallback@) == chosen_place(
                pv.skip(i as int),
                there@.skip(i as int),
                fallback@,
            ),
        decreases places@.len() - i,
    {
        proof {
            assert(pv.skip(i as int).skip(1) =~= pv.skip(i + 1));
            assert(there@.skip(i as int).skip(1) =~= there@.skip(i + 1));
        }
        if there[i] {
            return places[i].dir.clone();
        }
        i += 1;
    }
    owned(fallback)
}

} // verus!
