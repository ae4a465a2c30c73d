//! User settings and the locations of the user's configuration files.
use vstd::prelude::*;
use vstd::string::StringSliceAdditionalSpecFns;

use crate::catalog::clone_opt_string;
use crate::model::opt_str_view;
use crate::text::owned;

verus! {

/// The screen edge the dock sits on.
#[derive(PartialEq, Eq, Structural, Clone, Copy, Debug)]
pub enum Position {
    Bottom,
    Top,
    Left,
    Right,
}

impl Default for Position {
    fn default() -> (r: Self)
        ensures
            r == Position::Bottom,
    {
        Position::Bottom
    }
}

/// Which monitors get a dock.
#[derive(PartialEq, Eq, Structural, Clone, Copy, Debug)]
pub enum OutputMode {
    First,
    All,
}

impl Default for OutputMode {
    fn default() -> (r: Self)
        ensures
            r == OutputMode::First,
    {
        OutputMode::First
    }
}

/// Where the menu button sits on the dock.
#[derive(PartialEq, Eq, Structural, Clone, Copy, Debug)]
pub enum MenuPosition {
    Start,
    End,
}

/// Autohide behaviour.
#[derive(PartialEq, Eq, Structural, Clone, Copy, Debug)]
pub struct AutoHideSettings {
    pub enabled: bool,
    pub delay_secs: u64,
}

impl Default for AutoHideSettings {
    fn default() -> (r: Self)
        ensures
            r.enabled,
            r.delay_secs == 3,
    {
        AutoHideSettings { enabled: true, delay_secs: 3 }
    }
}

/// One entry of the dock menu: a shell command, optionally confirmed first.
pub struct MenuItem {
    pub label: String,
    pub icon: Option<String>,
    pub command: String,
    pub confirm: bool,
}

/// View of a [`MenuItem`].
pub struct MenuItemView {
    pub label: Seq<char>,
    pub icon: Option<Seq<char>>,
    pub command: Seq<char>,
    pub confirm: bool,
}

impl View for MenuItem {
    type V = MenuItemView;

    open spec fn view(&self) -> MenuItemView {
        MenuItemView { label: self.label@, icon: opt_str_view(self.icon), command: self.command@, confirm: self.confirm }
    }
}

impl Clone for MenuItem {
    fn clone(&self) -> (r: Self)
        ensures
            r@ == self@,
    {
        MenuItem {
            label: self.label.clone(),
            icon: clone_opt_string(&self.icon),
            command: self.command.clone(),
            confirm: self.confirm,
        }
    }
}

/// The views of a list of menu items.
pub open spec fn menu_items_view(items: Seq<MenuItem>) -> Seq<MenuItemView> {
    items.map_values(|i: MenuItem| i@)
}

/// The dock menu.
pub struct MenuConfig {
    pub enabled: bool,
    pub icon: String,
    pub position: MenuPosition,
    pub items: Vec<MenuItem>,
}

/// View of a [`MenuConfig`].
pub struct MenuConfigView {
    pub enabled: bool,
    pub icon: Seq<char>,
    pub position: MenuPosition,
    pub items: Seq<MenuItemView>,
}

impl View for MenuConfig {
    type V = MenuConfigView;

    open spec fn view(&self) -> MenuConfigView {
        MenuConfigView {
            enabled: self.enabled,
            icon: self.icon@,
            position: self.position,
            items: menu_items_view(self.items@),
        }
    }
}

/// A copy of a list of menu items.
pub fn clone_menu_items(items: &Vec<MenuItem>) -> (r: Vec<MenuItem>)
    ensures
        menu_items_view(r@) == menu_items_view(items@),
{
    let mut r: Vec<MenuItem> = Vec::new();
    let mut i: usize = 0;
    while i < items.len()
        invariant
            i <= items.len(),
            menu_items_view(r@) == menu_items_view(items@).take(i as int),
        decreases items.len() - i,
    {
        let ghost before = r@;
        r.push(items[i].clone());
        assert(menu_items_view(r@) == menu_items_view(before).push(items@[i as int]@));
        i = i + 1;
        assert(menu_items_view(items@).take(i as int) == menu_items_view(items@).take(i - 1).push(
            items@[i - 1]@,
        ));
    }
    assert(menu_items_view(items@).take(items.len() as int) == menu_items_view(items@));
    r
}

impl Clone for MenuConfig {
    fn clone(&self) -> (r: Self)
        ensures
            r@ == self@,
    {
        MenuConfig {
            enabled: self.enabled,
            icon: self.icon.clone(),
            position: self.position,
            items: clone_menu_items(&self.items),
        }
    }
}

/// A default menu entry.
pub open spec fn menu_entry(label: Seq<char>, icon: Seq<char>, command: Seq<char>, confirm: bool) -> MenuItemView {
    MenuItemView { label, icon: Some(icon), command, confirm }
}

/// The default menu: lock, log out, restart and shut down, all but the
/// first asking for confirmation.
pub open spec fn default_menu_items_view() -> Seq<MenuItemView> {
    seq![
        menu_entry("Lock"@, "system-lock-screen-symbolic"@, "swaylock -f"@, false),
        menu_entry("Logout"@, "system-log-out-symbolic"@, "loginctl terminate-user $USER"@, true),
        menu_entry("Restart"@, "system-restart-symbolic"@, "systemctl reboot"@, true),
        menu_entry("Shutdown"@, "system-shutdown-symbolic"@, "systemctl poweroff"@, true),
    ]
}

fn menu_item(label: &str, icon: &str, command: &str, confirm: bool) -> (r: MenuItem)
    ensures
        r@ == menu_entry(label@, icon@, command@, confirm),
{
    MenuItem { label: owned(label), icon: Some(owned(icon)), command: owned(command), confirm }
}

/// The default menu entries (see [`default_menu_items_view`]).
pub fn default_menu_items() -> (r: Vec<MenuItem>)
    ensures
        menu_items_view(r@) == default_menu_items_view(),
{
    let mut items: Vec<MenuItem> = Vec::new();
    items.push(menu_item("Lock", "system-lock-screen-symbolic", "swaylock -f", false));
    items.push(menu_item("Logout", "system-log-out-symbolic", "loginctl terminate-user $USER", true));
    items.push(menu_item("Restart", "system-restart-symbolic", "systemctl reboot", true));
    items.push(menu_item("Shutdown", "system-shutdown-symbolic", "systemctl poweroff", true));
    assert(menu_items_view(items@) =~= default_menu_items_view());
    items
}

/// The default menu configuration: disabled, at the end of the dock.
pub open spec fn default_menu_view() -> MenuConfigView {
    MenuConfigView {
        enabled: false,
        icon: "system-lock-screen-symbolic"@,
        position: MenuPosition::End,
        items: default_menu_items_view(),
    }
}

impl Default for MenuConfig {
    fn default() -> (r: Self)
        ensures
            r@ == default_menu_view(),
    {
        MenuConfig {
            enabled: false,
            icon: owned("system-lock-screen-symbolic"),
            position: MenuPosition::End,
            items: default_menu_items(),
        }
    }
}

/// The user's settings.
pub struct Settings {
    pub autohide: AutoHideSettings,
    pub show_pin_button: bool,
    pub icon_size: i32,
    pub position: Position,
    pub outputs: OutputMode,
    pub animation_duration_ms: u32,
    pub menu: MenuConfig,
}

/// View of [`Settings`].
pub struct SettingsView {
    pub autohide: AutoHideSettings,
    pub show_pin_button: bool,
    pub icon_size: i32,
    pub position: Position,
    pub outputs: OutputMode,
    pub animation_duration_ms: u32,
    pub menu: MenuConfigView,
}

impl View for Settings {
    type V = SettingsView;

    open spec fn view(&self) -> SettingsView {
        SettingsView {
            autohide: self.autohide,
            show_pin_button: self.show_pin_button,
            icon_size: self.icon_size,
            position: self.position,
            outputs: self.outputs,
            animation_duration_ms: self.animation_duration_ms,
            menu: self.menu@,
        }
    }
}

impl Clone for Settings {
    fn clone(&self) -> (r: Self)
        ensures
            r@ == self@,
    {
        Settings {
            autohide: self.autohide,
            show_pin_button: self.show_pin_button,
            icon_size: self.icon_size,
            position: self.position,
            outputs: self.outputs,
            animation_duration_ms: self.animation_duration_ms,
            menu: self.menu.clone(),
        }
    }
}

/// The default settings: autohide after 3 s, pin button shown, 24 px
/// icons at the bottom of the first monitor, 220 ms animations, menu off.
pub open spec fn default_settings_view() -> SettingsView {
    SettingsView {
        autohide: AutoHideSettings { enabled: true, delay_secs: 3 },
        show_pin_button: true,
        icon_size: 24,
        position: Position::Bottom,
        outputs: OutputMode::First,
        animation_duration_ms: 220,
        menu: default_menu_view(),
    }
}

impl Default for Settings {
    fn default() -> (r: Self)
        ensures
            r@ == default_settings_view(),
    {
        Settings {
            autohide: AutoHideSettings::default(),
            show_pin_button: true,
            icon_size: 24,
            position: Position::default(),
            outputs: OutputMode::default(),
            animation_duration_ms: 220,
            menu: MenuConfig::default(),
        }
    }
}

/// `x` limited to `[lo, hi]`.
pub open spec fn clamp(x: int, lo: int, hi: int) -> int {
    if x < lo {
        lo
    } else if x > hi {
        hi
    } else {
        x
    }
}

/// The settings with out-of-range values brought into range: icon size
/// within 8..=256 px, animations at most 10 s, autohide delay within
/// 1 s..=1 day.
pub open spec fn normalized_view(s: SettingsView) -> SettingsView {
    SettingsView {
        icon_size: clamp(s.icon_size as int, 8, 256) as i32,
        animation_duration_ms: if s.animation_duration_ms > 10_000 { 10_000 } else { s.animation_duration_ms },
        autohide: AutoHideSettings {
            enabled: s.autohide.enabled,
            delay_secs: clamp(s.autohide.delay_secs as int, 1, 86_400) as u64,
        },
        ..s
    }
}

impl Settings {
    /// These settings with out-of-range values brought into range (see
    /// [`normalized_view`]).
    pub fn normalized(self) -> (r: Self)
        ensures
            r@ == normalized_view(self@),
    {
        let mut s = self;
        s.icon_size = if s.icon_size < 8 {
            8
        } else if s.icon_size > 256 {
            256
        } else {
            s.icon_size
        };
        s.animation_duration_ms = if s.animation_duration_ms > 10_000 {
            10_000
        } else {
            s.animation_duration_ms
        };
        s.autohide.delay_secs = if s.autohide.delay_secs < 1 {
            1
        } else if s.autohide.delay_secs > 86_400 {
            86_400
        } else {
            s.autohide.delay_secs
        };
        s
    }
}

/// Normalizing is idempotent, and normalized settings are in range.
pub proof fn law_normalized_in_range_and_idempotent(s: SettingsView)
    ensures
        8 <= normalized_view(s).icon_size <= 256,
        normalized_view(s).animation_duration_ms <= 10_000,
        1 <= normalized_view(s).autohide.delay_secs <= 86_400,
        normalized_view(normalized_view(s)) == normalized_view(s),
{
}

/// The default settings are already normalized.
pub proof fn law_default_settings_normalized()
    ensures
        normalized_view(default_settings_view()) == default_settings_view(),
{
}

/// Whether two lists of menu items are equal.
fn menu_items_eq(a: &Vec<MenuItem>, b: &Vec<MenuItem>) -> (r: bool)
    ensures
        r == (menu_items_view(a@) == menu_items_view(b@)),
{
    if a.len() != b.len() {
        assert(menu_items_view(a@).len() != menu_items_view(b@).len());
        return false;
    }
    let mut i: usize = 0;
    while i < a.len()
        invariant
            a.len() == b.len(),
            i <= a.len(),
            forall|j: int| 0 <= j < i ==> a@[j]@ == b@[j]@,
        decreases a.len() - i,
    {
        let x = &a[i];
        let y = &b[i];
        if !(x.label == y.label && crate::model::opt_str_eq(&x.icon, &y.icon) && x.command == y.command
            && x.confirm == y.confirm) {
            assert(menu_items_view(a@)[i as int] != menu_items_view(b@)[i as int]);
            return false;
        }
        i = i + 1;
    }
    assert(menu_items_view(a@) =~= menu_items_view(b@));
    true
}

/// Whether two settings are equal in every field.
pub fn settings_eq(a: &Settings, b: &Settings) -> (r: bool)
    ensures
        r == (a@ == b@),
{
    a.autohide == b.autohide && a.show_pin_button == b.show_pin_button && a.icon_size == b.icon_size
        && a.position == b.position && a.outputs == b.outputs && a.animation_duration_ms
        == b.animation_duration_ms && a.menu.enabled == b.menu.enabled && a.menu.icon == b.menu.icon
        && a.menu.position == b.menu.position && menu_items_eq(&a.menu.items, &b.menu.items)
}

// ---------------------------------------------------------------------------
// Configuration files
// ---------------------------------------------------------------------------

/// The path separator, `/`.
pub const SEPARATOR: u8 = 47;

/// `Path::join` on Unix paths given as bytes: an absolute `part` replaces
/// `base`; otherwise `part` is appended, after a separator when `base` is
/// non-empty and does not already end in one.
pub open spec fn joined_path(base: Seq<u8>, part: Seq<u8>) -> Seq<u8> {
    if part.len() > 0 && part[0] == SEPARATOR {
        part
    } else if base.len() > 0 && base.last() != SEPARATOR {
        base + seq![SEPARATOR] + part
    } else {
        base + part
    }
}

/// Appends `bytes` to `out`.
fn append_bytes(out: &mut Vec<u8>, bytes: &[u8])
    ensures
        final(out)@ == old(out)@ + bytes@,
{
    let ghost start = out@;
    let mut i: usize = 0;
    while i < bytes.len()
        invariant
            i <= bytes.len(),
            out@ == start + bytes@.take(i as int),
        decreases bytes.len() - i,
    {
        out.push(bytes[i]);
        i = i + 1;
        assert(bytes@.take(i as int) == bytes@.take(i - 1).push(bytes@[i - 1]));
    }
    assert(bytes@.take(bytes.len() as int) == bytes@);
}

/// `base` joined with `part` (see [`joined_path`]).
pub fn path_join(base: &[u8], part: &[u8]) -> (r: Vec<u8>)
    ensures
        r@ == joined_path(base@, part@),
{
    let mut r: Vec<u8> = Vec::new();
    if part.len() > 0 && part[0] == SEPARATOR {
        append_bytes(&mut r, part);
        assert(r@ == part@);
        return r;
    }
    append_bytes(&mut r, base);
    if base.len() > 0 && base[base.len() - 1] == SEPARATOR {
        append_bytes(&mut r, part);
    } else if base.len() > 0 {
        r.push(SEPARATOR);
        append_bytes(&mut r, part);
        assert(r@ == base@ + seq![SEPARATOR] + part@);
    } else {
        append_bytes(&mut r, part);
    }
    r
}

/// `dirs::config_dir`: the user's configuration directory (on Linux
/// `$XDG_CONFIG_HOME`, else `$HOME/.config`), as the bytes of its path;
/// `None` when it cannot be found. It depends on the environment, so
/// nothing is claimed of it.
#[verifier::external_body]
fn user_config_base() -> Option<Vec<u8>> {
    dirs::config_dir().map(|dir| dir.into_os_string().into_encoded_bytes())
}

/// The dock's configuration directory inside the user's.
pub open spec fn dock_dir(base: Seq<u8>) -> Seq<u8> {
    joined_path(base, "rudo".spec_bytes())
}

/// The path of a file in the dock's directory, given the user's
/// configuration directory (`None` when there is none).
pub fn config_file_path(base: Option<Vec<u8>>, file: &str) -> (r: Option<Vec<u8>>)
    ensures
        match base {
            Some(b) => r is Some && r->0@ == joined_path(dock_dir(b@), file.spec_bytes()),
            None => r is None,
        },
{
    match base {
        Some(b) => {
            let dir = path_join(b.as_slice(), "rudo".as_bytes());
            Some(path_join(dir.as_slice(), file.as_bytes()))
        },
        None => None,
    }
}

/// The dock's configuration directory given the user's (`None` when there
/// is none): `rudo` inside it.
pub fn dock_dir_in(base: Option<Vec<u8>>) -> (r: Option<Vec<u8>>)
    ensures
        match base {
            Some(b) => r is Some && r->0@ == dock_dir(b@),
            None => r is None,
        },
{
    match base {
        Some(b) => Some(path_join(b.as_slice(), "rudo".as_bytes())),
        None => None,
    }
}

/// The dock's configuration directory, `rudo` inside the user's. Whether
/// the user's directory can be found depends on the environment, so this
/// states only what a found one gives (see [`dock_dir_in`]).
pub fn config_dir() -> (r: Option<Vec<u8>>)
    ensures
        r matches Some(d) ==> exists|b: Seq<u8>| d@ == #[trigger] dock_dir(b),
{
    let base = user_config_base();
    let ghost bv = match &base {
        Some(b) => b@,
        None => Seq::<u8>::empty(),
    };
    let r = dock_dir_in(base);
    assert(r matches Some(d) ==> d@ == dock_dir(bv));
    r
}

/// `pins.json` in the dock's configuration directory.
pub fn pins_path() -> (r: Option<Vec<u8>>)
    ensures
        r matches Some(p) ==> exists|b: Seq<u8>| p@ == #[trigger] joined_path(dock_dir(b), "pins.json".spec_bytes()),
{
    config_file_path(user_config_base(), "pins.json")
}

/// `style.css` in the dock's configuration directory.
pub fn style_path() -> (r: Option<Vec<u8>>)
    ensures
        r matches Some(p) ==> exists|b: Seq<u8>| p@ == #[trigger] joined_path(dock_dir(b), "style.css".spec_bytes()),
{
    config_file_path(user_config_base(), "style.css")
}

/// `settings.json` in the dock's configuration directory.
pub fn settings_path() -> (r: Option<Vec<u8>>)
    ensures
        r matches Some(p) ==> exists|b: Seq<u8>| p@ == #[trigger] joined_path(
            dock_dir(b),
            "settings.json".spec_bytes(),
        ),
{
    config_file_path(user_config_base(), "settings.json")
}

} // verus!
