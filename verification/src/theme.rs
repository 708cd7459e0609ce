//! Colour themes.

use crate::text;
use vstd::prelude::*;

verus! {

/// A colour with one byte for each channel.
#[derive(Clone, Copy, Debug, PartialEq, Eq, Structural)]
pub struct Color {
    pub r: u8,
    pub g: u8,
    pub b: u8,
    pub a: u8,
}

/// What a theme colour is for.
#[derive(Clone, Copy, Debug, PartialEq, Eq, Structural)]
pub enum ColorRole {
    BgBase,
    BgTerminal,
    TerminalForeground,
    TerminalCursor,
    BgSurface,
    BgElevated,
    BgHover,
    BgActive,
    BgSelected,
    BgInput,
    Border,
    BorderSubtle,
    BorderStrong,
    BorderFocus,
    Transparent,
    Accent,
    SelectionBg,
    TextPrimary,
    TextSecondary,
    TextTertiary,
    TextMuted,
    TextDim,
    TextGhost,
    TextFaint,
    TextInvisible,
    StatusGreenDim,
    StatusDim,
    AgentRunning,
    AgentNeedsInput,
    ErrorText,
    ErrorBg,
    ErrorBorder,
    DiffAddBg,
    DiffDelBg,
    DiffAddText,
    DiffDelText,
    DiffHunkHeader,
    ScrollbarThumb,
}

/// The colours of a theme.
#[derive(Clone, Copy, Debug, PartialEq, Eq, Structural)]
pub struct ThemeColors {
    pub bg_base: Color,
    pub bg_terminal: Color,
    pub terminal_foreground: Color,
    pub terminal_cursor: Color,
    pub bg_surface: Color,
    pub bg_elevated: Color,
    pub bg_hover: Color,
    pub bg_active: Color,
    pub bg_selected: Color,
    pub bg_input: Color,
    pub border: Color,
    pub border_subtle: Color,
    pub border_strong: Color,
    pub border_focus: Color,
    pub transparent: Color,
    pub accent: Color,
    pub selection_bg: Color,
    pub text_primary: Color,
    pub text_secondary: Color,
    pub text_tertiary: Color,
    pub text_muted: Color,
    pub text_dim: Color,
    pub text_ghost: Color,
    pub text_faint: Color,
    pub text_invisible: Color,
    pub status_green_dim: Color,
    pub status_dim: Color,
    pub agent_running: Color,
    pub agent_needs_input: Color,
    pub error_text: Color,
    pub error_bg: Color,
    pub error_border: Color,
    pub diff_add_bg: Color,
    pub diff_del_bg: Color,
    pub diff_add_text: Color,
    pub diff_del_text: Color,
    pub diff_hunk_header: Color,
    pub scrollbar_thumb: Color,
}

/// A theme that can be chosen: its saved id and its label.
#[derive(Clone, Copy, Debug)]
pub struct ThemeEntry {
    pub id: &'static str,
    pub label: &'static str,
}

/// The colours of a theme's preview card.
#[derive(Clone, Copy, Debug, PartialEq, Eq, Structural)]
pub struct PreviewPalette {
    pub bg: Color,
    pub surface: Color,
    pub border: Color,
    pub text: Color,
    pub muted: Color,
    pub accent: Color,
}

/// The light or dark setting of the system.
#[derive(Clone, Copy, Debug, PartialEq, Eq, Structural)]
pub enum Appearance {
    Light,
    Dark,
    VibrantLight,
    VibrantDark,
}

/// The id for following the system's light or dark setting.
pub const AUTO_THEME: &'static str = "auto";

/// The theme in use, if one was loaded, and a counter that moves with every load.
#[derive(Debug)]
pub struct ThemeStore {
    pub active: Option<ThemeColors>,
    pub generation: u64,
}

/// The name of a role in a theme file.
pub open spec fn role_name(role: ColorRole) -> Seq<char> {
    match role {
        ColorRole::BgBase => "bg_base"@,
        ColorRole::BgTerminal => "bg_terminal"@,
        ColorRole::TerminalForeground => "terminal_foreground"@,
        ColorRole::TerminalCursor => "terminal_cursor"@,
        ColorRole::BgSurface => "bg_surface"@,
        ColorRole::BgElevated => "bg_elevated"@,
        ColorRole::BgHover => "bg_hover"@,
        ColorRole::BgActive => "bg_active"@,
        ColorRole::BgSelected => "bg_selected"@,
        ColorRole::BgInput => "bg_input"@,
        ColorRole::Border => "border"@,
        ColorRole::BorderSubtle => "border_subtle"@,
        ColorRole::BorderStrong => "border_strong"@,
        ColorRole::BorderFocus => "border_focus"@,
        ColorRole::Transparent => "transparent"@,
        ColorRole::Accent => "accent"@,
        ColorRole::SelectionBg => "selection_bg"@,
        ColorRole::TextPrimary => "text_primary"@,
        ColorRole::TextSecondary => "text_secondary"@,
        ColorRole::TextTertiary => "text_tertiary"@,
        ColorRole::TextMuted => "text_muted"@,
        ColorRole::TextDim => "text_dim"@,
        ColorRole::TextGhost => "text_ghost"@,
        ColorRole::TextFaint => "text_faint"@,
        ColorRole::TextInvisible => "text_invisible"@,
        ColorRole::StatusGreenDim => "status_green_dim"@,
        ColorRole::StatusDim => "status_dim"@,
        ColorRole::AgentRunning => "agent_running"@,
        ColorRole::AgentNeedsInput => "agent_needs_input"@,
        ColorRole::ErrorText => "error_text"@,
        ColorRole::ErrorBg => "error_bg"@,
        ColorRole::ErrorBorder => "error_border"@,
        ColorRole::DiffAddBg => "diff_add_bg"@,
        ColorRole::DiffDelBg => "diff_del_bg"@,
        ColorRole::DiffAddText => "diff_add_text"@,
        ColorRole::DiffDelText => "diff_del_text"@,
        ColorRole::DiffHunkHeader => "diff_hunk_header"@,
        ColorRole::ScrollbarThumb => "scrollbar_thumb"@,
    }
}

impl ThemeColors {
    /// The colour for a role.
    pub open spec fn color_for(self, role: ColorRole) -> Color {
        match role {
            ColorRole::BgBase => self.bg_base,
            ColorRole::BgTerminal => self.bg_terminal,
            ColorRole::TerminalForeground => self.terminal_foreground,
            ColorRole::TerminalCursor => self.terminal_cursor,
            ColorRole::BgSurface => self.bg_surface,
            ColorRole::BgElevated => self.bg_elevated,
            ColorRole::BgHover => self.bg_hover,
            ColorRole::BgActive => self.bg_active,
            ColorRole::BgSelected => self.bg_selected,
            ColorRole::BgInput => self.bg_input,
            ColorRole::Border => self.border,
            ColorRole::BorderSubtle => self.border_subtle,
            ColorRole::BorderStrong => self.border_strong,
            ColorRole::BorderFocus => self.border_focus,
            ColorRole::Transparent => self.transparent,
            ColorRole::Accent => self.accent,
            ColorRole::SelectionBg => self.selection_bg,
            ColorRole::TextPrimary => self.text_primary,
            ColorRole::TextSecondary => self.text_secondary,
            ColorRole::TextTertiary => self.text_tertiary,
            ColorRole::TextMuted => self.text_muted,
            ColorRole::TextDim => self.text_dim,
            ColorRole::TextGhost => self.text_ghost,
            ColorRole::TextFaint => self.text_faint,
            ColorRole::TextInvisible => self.text_invisible,
            ColorRole::StatusGreenDim => self.status_green_dim,
            ColorRole::StatusDim => self.status_dim,
            ColorRole::AgentRunning => self.agent_running,
            ColorRole::AgentNeedsInput => self.agent_needs_input,
            ColorRole::ErrorText => self.error_text,
            ColorRole::ErrorBg => self.error_bg,
            ColorRole::ErrorBorder => self.error_border,
            ColorRole::DiffAddBg => self.diff_add_bg,
            ColorRole::DiffDelBg => self.diff_del_bg,
            ColorRole::DiffAddText => self.diff_add_text,
            ColorRole::DiffDelText => self.diff_del_text,
            ColorRole::DiffHunkHeader => self.diff_hunk_header,
            ColorRole::ScrollbarThumb => self.scrollbar_thumb,
        }
    }

    /// The colour for a role.
    pub fn get(&self, role: ColorRole) -> (c: Color)
        ensures
            c == self.color_for(role),
    {
        match role {
            ColorRole::BgBase => self.bg_base,
            ColorRole::BgTerminal => self.bg_terminal,
            ColorRole::TerminalForeground => self.terminal_foreground,
            ColorRole::TerminalCursor => self.terminal_cursor,
            ColorRole::BgSurface => self.bg_surface,
            ColorRole::BgElevated => self.bg_elevated,
            ColorRole::BgHover => self.bg_hover,
            ColorRole::BgActive => self.bg_active,
            ColorRole::BgSelected => self.bg_selected,
            ColorRole::BgInput => self.bg_input,
            ColorRole::Border => self.border,
            ColorRole::BorderSubtle => self.border_subtle,
            ColorRole::BorderStrong => self.border_strong,
            ColorRole::BorderFocus => self.border_focus,
            ColorRole::Transparent => self.transparent,
            ColorRole::Accent => self.accent,
            ColorRole::SelectionBg => self.selection_bg,
            ColorRole::TextPrimary => self.text_primary,
            ColorRole::TextSecondary => self.text_secondary,
            ColorRole::TextTertiary => self.text_tertiary,
            ColorRole::TextMuted => self.text_muted,
            ColorRole::TextDim => self.text_dim,
            ColorRole::TextGhost => self.text_ghost,
            ColorRole::TextFaint => self.text_faint,
            ColorRole::TextInvisible => self.text_invisible,
            ColorRole::StatusGreenDim => self.status_green_dim,
            ColorRole::StatusDim => self.status_dim,
            ColorRole::AgentRunning => self.agent_running,
            ColorRole::AgentNeedsInput => self.agent_needs_input,
            ColorRole::ErrorText => self.error_text,
            ColorRole::ErrorBg => self.error_bg,
            ColorRole::ErrorBorder => self.error_border,
            ColorRole::DiffAddBg => self.diff_add_bg,
            ColorRole::DiffDelBg => self.diff_del_bg,
            ColorRole::DiffAddText => self.diff_add_text,
            ColorRole::DiffDelText => self.diff_del_text,
            ColorRole::DiffHunkHeader => self.diff_hunk_header,
            ColorRole::ScrollbarThumb => self.scrollbar_thumb,
        }
    }
}

/// Whether a theme of this id is bundled.
pub open spec fn is_bundled(id: Seq<char>) -> bool {
    id == "superhq-dark"@ || id == "superhq-light"@ || id == "washi"@ || id == "sumi"@
}

/// The label of a theme that can be chosen.
pub open spec fn label_of(id: Seq<char>) -> Option<Seq<char>> {
    if id == "superhq-light"@ {
        Some("Light"@)
    } else if id == "superhq-dark"@ {
        Some("Dark"@)
    } else if id == "washi"@ {
        Some("Washi"@)
    } else if id == "sumi"@ {
        Some("Sumi"@)
    } else {
        None
    }
}

/// The value of a hexadecimal digit.
pub open spec fn hex_digit(c: char) -> Option<int> {
    let n = c as u32;
    if 48 <= n <= 57 {
        Some(n - 48)
    } else if 65 <= n <= 70 {
        Some(n - 55)
    } else if 97 <= n <= 102 {
        Some(n - 87)
    } else {
        None
    }
}

/// The value of two hexadecimal digits, or of a plus sign and one digit.
pub open spec fn hex_pair(s: Seq<char>) -> Option<int> {
    if s.len() != 2 {
        None
    } else if s[0] == '+' {
        hex_digit(s[1])
    } else {
        match (hex_digit(s[0]), hex_digit(s[1])) {
            (Some(high), Some(low)) => Some(16 * high + low),
            _ => None,
        }
    }
}

/// `s` without the `#` at its start.
pub open spec fn without_hashes(s: Seq<char>) -> Seq<char>
    decreases s.len(),
{
    if s.len() > 0 && s[0] == '#' {
        without_hashes(s.drop_first())
    } else {
        s
    }
}

/// The value of the pair of bytes at `2 * i`.
pub open spec fn pair_at(s: Seq<char>, i: int) -> Option<int> {
    hex_pair(text::byte_slice(s, 2 * i, 2 * i + 2))
}

/// The pairs that are read before one fails do not cut a character in two.
pub open spec fn pairs_are_whole(s: Seq<char>) -> bool {
    let t = without_hashes(s);
    let n = text::byte_len(t);
    n == 6 || n == 8 ==> {
        &&& text::is_boundary(t, 2)
        &&& pair_at(t, 0) is Some ==> text::is_boundary(t, 4)
        &&& pair_at(t, 0) is Some && pair_at(t, 1) is Some ==> text::is_boundary(t, 6)
    }
}

/// The colour that a hex string such as `#1a1b26` or `#ffffff0a` stands for.
pub open spec fn hex_color(s: Seq<char>) -> Option<Color> {
    let t = without_hashes(s);
    let n = text::byte_len(t);
    if n != 6 && n != 8 {
        None
    } else {
        match (pair_at(t, 0), pair_at(t, 1), pair_at(t, 2)) {
            (Some(r), Some(g), Some(b)) => if n == 6 {
                Some(Color { r: r as u8, g: g as u8, b: b as u8, a: 255 })
            } else {
                match pair_at(t, 3) {
                    Some(a) => Some(Color { r: r as u8, g: g as u8, b: b as u8, a: a as u8 }),
                    None => None,
                }
            },
            _ => None,
        }
    }
}

/// How bright a colour is to the eye, from 0 to 255000.
pub open spec fn luma(c: Color) -> int {
    299 * c.r + 587 * c.g + 114 * c.b
}

fn digit_value(c: char) -> (r: Option<u8>)
    ensures
        r is Some == hex_digit(c) is Some,
        r matches Some(v) ==> v < 16 && hex_digit(c) == Some(v as int),
{
    let n: u32 = c as u32;
    if 48 <= n && n <= 57 {
        Some((n - 48) as u8)
    } else if 65 <= n && n <= 70 {
        Some((n - 55) as u8)
    } else if 97 <= n && n <= 102 {
        Some((n - 87) as u8)
    } else {
        None
    }
}

fn pair_value(s: &str) -> (r: Option<u8>)
    ensures
        r is Some == hex_pair(s@) is Some,
        r matches Some(v) ==> hex_pair(s@) == Some(v as int),
{
    let chars = text::to_chars(s);
    if chars.len() != 2 {
        return None;
    }
    if chars[0] == '+' {
        return digit_value(chars[1]);
    }
    match (digit_value(chars[0]), digit_value(chars[1])) {
        (Some(high), Some(low)) => Some(16 * high + low),
        _ => None,
    }
}

proof fn lemma_hashes(s: Seq<char>, n: int)
    requires
        0 <= n <= s.len(),
        forall|i: int| 0 <= i < n ==> s[i] == '#',
    ensures
        text::ends_at(s, n, n),
    decreases n,
{
    if n > 0 {
        lemma_hashes(s, n - 1);
        text::lemma_take_step(s, n - 1);
    } else {
        assert(s.take(0) =~= Seq::<char>::empty());
    }
}

/// Where a byte offset inside a tail of `s` lies.
proof fn lemma_tail(s: Seq<char>, k: int, mid: int)
    requires
        text::is_boundary(s, mid),
        text::is_boundary(s, k),
        k <= mid,
    ensures
        text::is_boundary(s.skip(text::chars_before(s, k)), mid - k),
        text::byte_slice(s, k, mid) == s.skip(text::chars_before(s, k)).take(
            text::chars_before(s.skip(text::chars_before(s, k)), mid - k),
        ),
        s.skip(text::chars_before(s, mid)) == s.skip(text::chars_before(s, k)).skip(
            text::chars_before(s.skip(text::chars_before(s, k)), mid - k),
        ),
{
    text::lemma_boundary(s, k);
    text::lemma_boundary(s, mid);
    text::lemma_boundary_order(s, k, mid);
    let i = text::chars_before(s, k);
    let j = text::chars_before(s, mid);
    let tail = s.skip(i);
    assert(s.take(j) =~= s.take(i) + tail.take(j - i));
    text::lemma_byte_len_concat(s.take(i), tail.take(j - i));
    assert(text::ends_at(tail, j - i, mid - k));
    text::lemma_ends_at_unique(tail, j - i, mid - k);
    assert(s.subrange(i, j) =~= tail.take(j - i));
    assert(s.skip(j) =~= tail.skip(j - i));
}

/// Reads a colour from a hex string such as `#1a1b26` or `#ffffff0a`.
pub fn parse_hex_color(hex: &str) -> (c: Option<Color>)
    requires
        pairs_are_whole(hex@),
    ensures
        c == hex_color(hex@),
{
    let chars = text::to_chars(hex);
    let mut n: usize = 0;
    assert(hex@.skip(0) =~= hex@);
    while n < chars.len() && chars[n] == '#'
        invariant
            n <= chars@.len(),
            chars@ == hex@,
            forall|i: int| 0 <= i < n ==> hex@[i] == '#',
            without_hashes(hex@) == without_hashes(hex@.skip(n as int)),
        decreases chars@.len() - n,
    {
        assert(hex@.skip(n as int).drop_first() =~= hex@.skip(n + 1));
        n += 1;
    }
    proof {
        lemma_hashes(hex@, n as int);
        text::lemma_ends_at_unique(hex@, n as int, n as int);
    }
    let (_, digits) = text::split_text(hex, n);
    let ghost t = without_hashes(hex@);
    assert(digits@ == t);
    let size: usize = text::byte_length(digits);
    if size != 6 && size != 8 {
        return None;
    }
    proof {
        text::lemma_ends_are_boundaries(t);
        assert(t.skip(0) =~= t);
        lemma_tail(t, 0, 2);
    }
    let (first, rest) = text::split_text(digits, 2);
    let r: u8 = match pair_value(first) {
        Some(v) => v,
        None => return None,
    };
    proof {
        lemma_tail(t, 2, 4);
    }
    let (second, rest) = text::split_text(rest, 2);
    let g: u8 = match pair_value(second) {
        Some(v) => v,
        None => return None,
    };
    proof {
        lemma_tail(t, 4, 6);
    }
    let (third, rest) = text::split_text(rest, 2);
    let b: u8 = match pair_value(third) {
        Some(v) => v,
        None => return None,
    };
    if size == 6 {
        return Some(Color { r, g, b, a: 255 });
    }
    proof {
        lemma_tail(t, 6, 8);
    }
    let (fourth, _) = text::split_text(rest, 2);
    match pair_value(fourth) {
        Some(a) => Some(Color { r, g, b, a }),
        None => None,
    }
}

/// A store with no theme loaded.
pub fn new_store() -> (store: ThemeStore)
    ensures
        store.active is None,
        store.generation == 1,
{
    ThemeStore { active: None, generation: 1 }
}

/// The colours in use: those of the loaded theme, else `fallback`, which then counts as loaded.
pub fn current(store: &mut ThemeStore, fallback: ThemeColors) -> (c: ThemeColors)
    ensures
        c == (match old(store).active {
            Some(active) => active,
            None => fallback,
        }),
        final(store).active == Some(c),
        final(store).generation == old(store).generation,
{
    match store.active {
        Some(active) => active,
        None => {
            store.active = Some(fallback);
            fallback
        },
    }
}

/// The counter that moves with every successful load.
pub fn theme_generation(store: &ThemeStore) -> (n: u64)
    ensures
        n == store.generation,
{
    store.generation
}

/// Whether the base background is closer to black than to white.
pub fn is_dark(colors: &ThemeColors) -> (r: bool)
    ensures
        r == (luma(colors.bg_base) < 127500),
{
    let c = colors.bg_base;
    299 * (c.r as u32) + 587 * (c.g as u32) + 114 * (c.b as u32) < 127500
}

/// Whether a theme of this id is bundled.
pub fn bundled(id: &str) -> (r: bool)
    ensures
        r == is_bundled(id@),
{
    text::same_text(id, "superhq-dark") || text::same_text(id, "superhq-light")
        || text::same_text(id, "washi") || text::same_text(id, "sumi")
}

/// Puts a theme in use. `parsed` holds the colours of its file, if they could be read. Returns
/// whether the theme was taken; if not, nothing changes.
pub fn load_theme(store: &mut ThemeStore, id: &str, parsed: Option<ThemeColors>) -> (r: bool)
    ensures
        r == (is_bundled(id@) && parsed is Some),
        r ==> final(store).active == parsed,
        r ==> final(store).generation == old(store).generation.wrapping_add(1),
        !r ==> *final(store) == *old(store),
{
    if !bundled(id) {
        return false;
    }
    match parsed {
        Some(colors) => {
            store.active = Some(colors);
            store.generation = store.generation.wrapping_add(1);
            true
        },
        None => false,
    }
}

/// The theme id that a saved id stands for: the system's for `auto`, a bundled id as it is, and
/// the dark theme for anything else.
pub fn resolve_theme_id<'a>(saved: &'a str, appearance: Appearance) -> (id: &'a str)
    ensures
        id@ == (if saved@ == AUTO_THEME@ {
            match appearance {
                Appearance::Dark | Appearance::VibrantDark => "superhq-dark"@,
                Appearance::Light | Appearance::VibrantLight => "superhq-light"@,
            }
        } else if is_bundled(saved@) {
            saved@
        } else {
            "superhq-dark"@
        }),
        is_bundled(id@),
{
    if text::same_text(saved, AUTO_THEME) {
        match appearance {
            Appearance::Dark | Appearance::VibrantDark => "superhq-dark",
            Appearance::Light | Appearance::VibrantLight => "superhq-light",
        }
    } else if bundled(saved) {
        saved
    } else {
        "superhq-dark"
    }
}

/// The themes that can be chosen, in the order of the picker.
pub fn themes() -> (v: Vec<ThemeEntry>)
    ensures
        v@.len() == 4,
        v@[0].id@ == "superhq-light"@,
        v@[1].id@ == "superhq-dark"@,
        v@[2].id@ == "washi"@,
        v@[3].id@ == "sumi"@,
        forall|i: int|
            0 <= i < 4 ==> label_of((#[trigger] v@[i]).id@) == Some(v@[i].label@) && is_bundled(
                v@[i].id@,
            ),
{
    proof {
        reveal_strlit("superhq-light");
        reveal_strlit("superhq-dark");
        reveal_strlit("washi");
        reveal_strlit("sumi");
        assert("superhq-light"@.len() == 13);
        assert("superhq-dark"@.len() == 12);
        assert("washi"@.len() == 5);
        assert("sumi"@.len() == 4);
    }
    let mut v: Vec<ThemeEntry> = Vec::new();
    v.push(ThemeEntry { id: "superhq-light", label: "Light" });
    v.push(ThemeEntry { id: "superhq-dark", label: "Dark" });
    v.push(ThemeEntry { id: "washi", label: "Washi" });
    v.push(ThemeEntry { id: "sumi", label: "Sumi" });
    v
}

/// The entry of a theme.
pub fn theme_entry(id: &str) -> (r: Option<ThemeEntry>)
    ensures
        r is Some == label_of(id@) is Some,
        r matches Some(entry) ==> entry.id@ == id@ && label_of(id@) == Some(entry.label@),
{
    let all = themes();
    if text::same_text(id, all[0].id) {
        Some(all[0])
    } else if text::same_text(id, all[1].id) {
        Some(all[1])
    } else if text::same_text(id, all[2].id) {
        Some(all[2])
    } else if text::same_text(id, all[3].id) {
        Some(all[3])
    } else {
        None
    }
}

/// The colours for the preview card of a bundled theme, from the colours of its file.
pub fn preview_palette(id: &str, parsed: Option<ThemeColors>) -> (r: Option<PreviewPalette>)
    ensures
        r is Some == (is_bundled(id@) && parsed is Some),
        r matches Some(p) ==> (parsed matches Some(t) && p == (PreviewPalette {
            bg: t.bg_base,
            surface: t.bg_elevated,
            border: t.border,
            text: t.text_primary,
            muted: t.text_muted,
            accent: t.accent,
        })),
{
    if !bundled(id) {
        return None;
    }
    match parsed {
        Some(t) => Some(
            PreviewPalette {
                bg: t.bg_base,
                surface: t.bg_elevated,
                border: t.border,
                text: t.text_primary,
                muted: t.text_muted,
                accent: t.accent,
            },
        ),
        None => None,
    }
}

/// The red, green and blue bytes of a colour.
pub fn rgb_bytes(color: Color) -> (r: (u8, u8, u8))
    ensures
        r == (color.r, color.g, color.b),
{
    (color.r, color.g, color.b)
}

/// A theme file's entries as plain text: field name and hex string.
#[derive(Debug)]
pub struct ThemeField {
    pub name: String,
    pub value: String,
}

/// The value of the first entry of a name.
pub open spec fn field_value(fields: Seq<ThemeField>, name: Seq<char>) -> Option<Seq<char>>
    decreases fields.len(),
{
    if fields.len() == 0 {
        None
    } else if fields[0].name@ == name {
        Some(fields[0].value@)
    } else {
        field_value(fields.drop_first(), name)
    }
}

/// The colour that the entries give a role.
#[verifier::opaque]
pub open spec fn field_color(fields: Seq<ThemeField>, role: ColorRole) -> Option<Color> {
    match field_value(fields, role_name(role)) {
        Some(value) => hex_color(value),
        None => None,
    }
}

/// The pairs of digits can be cut out of the values of a name.
pub open spec fn values_can_be_cut(fields: Seq<ThemeField>, name: Seq<char>) -> bool {
    forall|i: int|
        0 <= i < fields.len() && (#[trigger] fields[i]).name@ == name ==> pairs_are_whole(
            fields[i].value@,
        )
}

fn read_field(fields: &Vec<ThemeField>, name: &str) -> (c: Option<Color>)
    requires
        values_can_be_cut(fields@, name@),
    ensures
        c == (match field_value(fields@, name@) {
            Some(value) => hex_color(value),
            None => None,
        }),
{
    let mut i: usize = 0;
    assert(fields@.skip(0) =~= fields@);
    while i < fields.len()
        invariant
            i <= fields@.len(),
            values_can_be_cut(fields@, name@),
            field_value(fields@, name@) == field_value(fields@.skip(i as int), name@),
        decreases fields@.len() - i,
    {
        if text::same_text(fields[i].name.as_str(), name) {
            return parse_hex_color(fields[i].value.as_str());
        }
        assert(fields@.skip(i as int).drop_first() =~= fields@.skip(i + 1));
        i += 1;
    }
    None
}

/// The name of a role in a theme file.
pub fn name_of(role: ColorRole) -> (name: &'static str)
    ensures
        name@ == role_name(role),
{
    match role {
        ColorRole::BgBase => "bg_base",
        ColorRole::BgTerminal => "bg_terminal",
        ColorRole::TerminalForeground => "terminal_foreground",
        ColorRole::TerminalCursor => "terminal_cursor",
        ColorRole::BgSurface => "bg_surface",
        ColorRole::BgElevated => "bg_elevated",
        ColorRole::BgHover => "bg_hover",
        ColorRole::BgActive => "bg_active",
        ColorRole::BgSelected => "bg_selected",
        ColorRole::BgInput => "bg_input",
        ColorRole::Border => "border",
        ColorRole::BorderSubtle => "border_subtle",
        ColorRole::BorderStrong => "border_strong",
        ColorRole::BorderFocus => "border_focus",
        ColorRole::Transparent => "transparent",
        ColorRole::Accent => "accent",
        ColorRole::SelectionBg => "selection_bg",
        ColorRole::TextPrimary => "text_primary",
        ColorRole::TextSecondary => "text_secondary",
        ColorRole::TextTertiary => "text_tertiary",
        ColorRole::TextMuted => "text_muted",
        ColorRole::TextDim => "text_dim",
        ColorRole::TextGhost => "text_ghost",
        ColorRole::TextFaint => "text_faint",
        ColorRole::TextInvisible => "text_invisible",
        ColorRole::StatusGreenDim => "status_green_dim",
        ColorRole::StatusDim => "status_dim",
        ColorRole::AgentRunning => "agent_running",
        ColorRole::AgentNeedsInput => "agent_needs_input",
        ColorRole::ErrorText => "error_text",
        ColorRole::ErrorBg => "error_bg",
        ColorRole::ErrorBorder => "error_border",
        ColorRole::DiffAddBg => "diff_add_bg",
        ColorRole::DiffDelBg => "diff_del_bg",
        ColorRole::DiffAddText => "diff_add_text",
        ColorRole::DiffDelText => "diff_del_text",
        ColorRole::DiffHunkHeader => "diff_hunk_header",
        ColorRole::ScrollbarThumb => "scrollbar_thumb",
    }
}

fn read_role(fields: &Vec<ThemeField>, role: ColorRole) -> (c: Option<Color>)
    requires
        values_can_be_cut(fields@, role_name(role)),
    ensures
        c == field_color(fields@, role),
{
    proof {
        reveal(field_color);
    }
    read_field(fields, name_of(role))
}

/// Every role has a colour in the entries.
pub open spec fn all_roles_have_color(fields: Seq<ThemeField>) -> bool {
    forall|role: ColorRole| #[trigger] field_color(fields, role) is Some
}

/// Reads a theme from the entries of its file. Every role must have its entry.
pub fn theme_from_fields(fields: &Vec<ThemeField>) -> (r: Option<ThemeColors>)
    requires
        forall|role: ColorRole| values_can_be_cut(fields@, #[trigger] role_name(role)),
    ensures
        r is Some == all_roles_have_color(fields@),
        r matches Some(t) ==> forall|role: ColorRole|
            #[trigger] field_color(fields@, role) == Some(t.color_for(role)),
{
    let colors = ThemeColors {
        bg_base: match read_role(fields, ColorRole::BgBase) {
            Some(c) => c,
            None => return None,
        },
        bg_terminal: match read_role(fields, ColorRole::BgTerminal) {
            Some(c) => c,
            None => return None,
        },
        terminal_foreground: match read_role(fields, ColorRole::TerminalForeground) {
            Some(c) => c,
            None => return None,
        },
        terminal_cursor: match read_role(fields, ColorRole::TerminalCursor) {
            Some(c) => c,
            None => return None,
        },
        bg_surface: match read_role(fields, ColorRole::BgSurface) {
            Some(c) => c,
            None => return None,
        },
        bg_elevated: match read_role(fields, ColorRole::BgElevated) {
            Some(c) => c,
            None => return None,
        },
        bg_hover: match read_role(fields, ColorRole::BgHover) {
            Some(c) => c,
            None => return None,
        },
        bg_active: match read_role(fields, ColorRole::BgActive) {
            Some(c) => c,
            None => return None,
        },
        bg_selected: match read_role(fields, ColorRole::BgSelected) {
            Some(c) => c,
            None => return None,
        },
        bg_input: match read_role(fields, ColorRole::BgInput) {
            Some(c) => c,
            None => return None,
        },
        border: match read_role(fields, ColorRole::Border) {
            Some(c) => c,
            None => return None,
        },
        border_subtle: match read_role(fields, ColorRole::BorderSubtle) {
            Some(c) => c,
            None => return None,
        },
        border_strong: match read_role(fields, ColorRole::BorderStrong) {
            Some(c) => c,
            None => return None,
        },
        border_focus: match read_role(fields, ColorRole::BorderFocus) {
            Some(c) => c,
            None => return None,
        },
        transparent: match read_role(fields, ColorRole::Transparent) {
            Some(c) => c,
            None => return None,
        },
        accent: match read_role(fields, ColorRole::Accent) {
            Some(c) => c,
            None => return None,
        },
        selection_bg: match read_role(fields, ColorRole::SelectionBg) {
            Some(c) => c,
            None => return None,
        },
        text_primary: match read_role(fields, ColorRole::TextPrimary) {
            Some(c) => c,
            None => return None,
        },
        text_secondary: match read_role(fields, ColorRole::TextSecondary) {
            Some(c) => c,
            None => return None,
        },
        text_tertiary: match read_role(fields, ColorRole::TextTertiary) {
            Some(c) => c,
            None => return None,
        },
        text_muted: match read_role(fields, ColorRole::TextMuted) {
            Some(c) => c,
            None => return None,
        },
        text_dim: match read_role(fields, ColorRole::TextDim) {
            Some(c) => c,
            None => return None,
        },
        text_ghost: match read_role(fields, ColorRole::TextGhost) {
            Some(c) => c,
            None => return None,
        },
        text_faint: match read_role(fields, ColorRole::TextFaint) {
            Some(c) => c,
            None => return None,
        },
        text_invisible: match read_role(fields, ColorRole::TextInvisible) {
            Some(c) => c,
            None => return None,
        },
        status_green_dim: match read_role(fields, ColorRole::StatusGreenDim) {
            Some(c) => c,
            None => return None,
        },
        status_dim: match read_role(fields, ColorRole::StatusDim) {
            Some(c) => c,
            None => return None,
        },
        agent_running: match read_role(fields, ColorRole::AgentRunning) {
            Some(c) => c,
            None => return None,
        },
        agent_needs_input: match read_role(fields, ColorRole::AgentNeedsInput) {
            Some(c) => c,
            None => return None,
        },
        error_text: match read_role(fields, ColorRole::ErrorText) {
            Some(c) => c,
            None => return None,
        },
        error_bg: match read_role(fields, ColorRole::ErrorBg) {
            Some(c) => c,
            None => return None,
        },
        error_border: match read_role(fields, ColorRole::ErrorBorder) {
            Some(c) => c,
            None => return None,
        },
        diff_add_bg: match read_role(fields, ColorRole::DiffAddBg) {
            Some(c) => c,
            None => return None,
        },
        diff_del_bg: match read_role(fields, ColorRole::DiffDelBg) {
            Some(c) => c,
            None => return None,
        },
        diff_add_text: match read_role(fields, ColorRole::DiffAddText) {
            Some(c) => c,
            None => return None,
        },
        diff_del_text: match read_role(fields, ColorRole::DiffDelText) {
            Some(c) => c,
            None => return None,
        },
        diff_hunk_header: match read_role(fields, ColorRole::DiffHunkHeader) {
            Some(c) => c,
            None => return None,
        },
        scrollbar_thumb: match read_role(fields, ColorRole::ScrollbarThumb) {
            Some(c) => c,
            None => return None,
        },
    };
    proof {
        assert forall|role: ColorRole|
            #[trigger] field_color(fields@, role) == Some(colors.color_for(role)) by {
            match role {
                ColorRole::BgBase => {},
                ColorRole::BgTerminal => {},
                ColorRole::TerminalForeground => {},
                ColorRole::TerminalCursor => {},
                ColorRole::BgSurface => {},
                ColorRole::BgElevated => {},
                ColorRole::BgHover => {},
                ColorRole::BgActive => {},
                ColorRole::BgSelected => {},
                ColorRole::BgInput => {},
                ColorRole::Border => {},
                ColorRole::BorderSubtle => {},
                ColorRole::BorderStrong => {},
                ColorRole::BorderFocus => {},
                ColorRole::Transparent => {},
                ColorRole::Accent => {},
                ColorRole::SelectionBg => {},
                ColorRole::TextPrimary => {},
                ColorRole::TextSecondary => {},
                ColorRole::TextTertiary => {},
                ColorRole::TextMuted => {},
                ColorRole::TextDim => {},
                ColorRole::TextGhost => {},
                ColorRole::TextFaint => {},
                ColorRole::TextInvisible => {},
                ColorRole::StatusGreenDim => {},
                ColorRole::StatusDim => {},
                ColorRole::AgentRunning => {},
                ColorRole::AgentNeedsInput => {},
                ColorRole::ErrorText => {},
                ColorRole::ErrorBg => {},
                ColorRole::ErrorBorder => {},
                ColorRole::DiffAddBg => {},
                ColorRole::DiffDelBg => {},
                ColorRole::DiffAddText => {},
                ColorRole::DiffDelText => {},
                ColorRole::DiffHunkHeader => {},
                ColorRole::ScrollbarThumb => {},
            }
        }
    }
    Some(colors)
}

pub fn bg_base(colors: &ThemeColors) -> (c: Color)
    ensures
        c == colors.bg_base,
        c == colors.color_for(ColorRole::BgBase),
{
    colors.bg_base
}

pub fn bg_terminal(colors: &ThemeColors) -> (c: Color)
    ensures
        c == colors.bg_terminal,
        c == colors.color_for(ColorRole::BgTerminal),
{
    colors.bg_terminal
}

pub fn terminal_foreground(colors: &ThemeColors) -> (c: Color)
    ensures
        c == colors.terminal_foreground,
        c == colors.color_for(ColorRole::TerminalForeground),
{
    colors.terminal_foreground
}

pub fn terminal_cursor(colors: &ThemeColors) -> (c: Color)
    ensures
        c == colors.terminal_cursor,
        c == colors.color_for(ColorRole::TerminalCursor),
{
    colors.terminal_cursor
}

pub fn bg_surface(colors: &ThemeColors) -> (c: Color)
    ensures
        c == colors.bg_surface,
        c == colors.color_for(ColorRole::BgSurface),
{
    colors.bg_surface
}

pub fn bg_elevated(colors: &ThemeColors) -> (c: Color)
    ensures
        c == colors.bg_elevated,
        c == colors.color_for(ColorRole::BgElevated),
{
    colors.bg_elevated
}

pub fn bg_hover(colors: &ThemeColors) -> (c: Color)
    ensures
        c == colors.bg_hover,
        c == colors.color_for(ColorRole::BgHover),
{
    colors.bg_hover
}

pub fn bg_active(colors: &ThemeColors) -> (c: Color)
    ensures
        c == colors.bg_active,
        c == colors.color_for(ColorRole::BgActive),
{
    colors.bg_active
}

pub fn bg_selected(colors: &ThemeColors) -> (c: Color)
    ensures
        c == colors.bg_selected,
        c == colors.color_for(ColorRole::BgSelected),
{
    colors.bg_selected
}

pub fn bg_input(colors: &ThemeColors) -> (c: Color)
    ensures
        c == colors.bg_input,
        c == colors.color_for(ColorRole::BgInput),
{
    colors.bg_input
}

pub fn border(colors: &ThemeColors) -> (c: Color)
    ensures
        c == colors.border,
        c == colors.color_for(ColorRole::Border),
{
    colors.border
}

pub fn border_subtle(colors: &ThemeColors) -> (c: Color)
    ensures
        c == colors.border_subtle,
        c == colors.color_for(ColorRole::BorderSubtle),
{
    colors.border_subtle
}

pub fn border_strong(colors: &ThemeColors) -> (c: Color)
    ensures
        c == colors.border_strong,
        c == colors.color_for(ColorRole::BorderStrong),
{
    colors.border_strong
}

pub fn border_focus(colors: &ThemeColors) -> (c: Color)
    ensures
        c == colors.border_focus,
        c == colors.color_for(ColorRole::BorderFocus),
{
    colors.border_focus
}

pub fn transparent(colors: &ThemeColors) -> (c: Color)
    ensures
        c == colors.transparent,
        c == colors.color_for(ColorRole::Transparent),
{
    colors.transparent
}

pub fn accent(colors: &ThemeColors) -> (c: Color)
    ensures
        c == colors.accent,
        c == colors.color_for(ColorRole::Accent),
{
    colors.accent
}

pub fn selection_bg(colors: &ThemeColors) -> (c: Color)
    ensures
        c == colors.selection_bg,
        c == colors.color_for(ColorRole::SelectionBg),
{
    colors.selection_bg
}

pub fn text_primary(colors: &ThemeColors) -> (c: Color)
    ensures
        c == colors.text_primary,
        c == colors.color_for(ColorRole::TextPrimary),
{
    colors.text_primary
}

pub fn text_secondary(colors: &ThemeColors) -> (c: Color)
    ensures
        c == colors.text_secondary,
        c == colors.color_for(ColorRole::TextSecondary),
{
    colors.text_secondary
}

pub fn text_tertiary(colors: &ThemeColors) -> (c: Color)
    ensures
        c == colors.text_tertiary,
        c == colors.color_for(ColorRole::TextTertiary),
{
    colors.text_tertiary
}

pub fn text_muted(colors: &ThemeColors) -> (c: Color)
    ensures
        c == colors.text_muted,
        c == colors.color_for(ColorRole::TextMuted),
{
    colors.text_muted
}

pub fn text_dim(colors: &ThemeColors) -> (c: Color)
    ensures
        c == colors.text_dim,
        c == colors.color_for(ColorRole::TextDim),
{
    colors.text_dim
}

pub fn text_ghost(colors: &ThemeColors) -> (c: Color)
    ensures
        c == colors.text_ghost,
        c == colors.color_for(ColorRole::TextGhost),
{
    colors.text_ghost
}

pub fn text_faint(colors: &ThemeColors) -> (c: Color)
    ensures
        c == colors.text_faint,
        c == colors.color_for(ColorRole::TextFaint),
{
    colors.text_faint
}

pub fn text_invisible(colors: &ThemeColors) -> (c: Color)
    ensures
        c == colors.text_invisible,
        c == colors.color_for(ColorRole::TextInvisible),
{
    colors.text_invisible
}

pub fn status_green_dim(colors: &ThemeColors) -> (c: Color)
    ensures
        c == colors.status_green_dim,
        c == colors.color_for(ColorRole::StatusGreenDim),
{
    colors.status_green_dim
}

pub fn status_dim(colors: &ThemeColors) -> (c: Color)
    ensures
        c == colors.status_dim,
        c == colors.color_for(ColorRole::StatusDim),
{
    colors.status_dim
}

pub fn agent_running(colors: &ThemeColors) -> (c: Color)
    ensures
        c == colors.agent_running,
        c == colors.color_for(ColorRole::AgentRunning),
{
    colors.agent_running
}

pub fn agent_needs_input(colors: &ThemeColors) -> (c: Color)
    ensures
        c == colors.agent_needs_input,
        c == colors.color_for(ColorRole::AgentNeedsInput),
{
    colors.agent_needs_input
}

pub fn error_text(colors: &ThemeColors) -> (c: Color)
    ensures
        c == colors.error_text,
        c == colors.color_for(ColorRole::ErrorText),
{
    colors.error_text
}

pub fn error_bg(colors: &ThemeColors) -> (c: Color)
    ensures
        c == colors.error_bg,
        c == colors.color_for(ColorRole::ErrorBg),
{
    colors.error_bg
}

pub fn error_border(colors: &ThemeColors) -> (c: Color)
    ensures
        c == colors.error_border,
        c == colors.color_for(ColorRole::ErrorBorder),
{
    colors.error_border
}

pub fn diff_add_bg(colors: &ThemeColors) -> (c: Color)
    ensures
        c == colors.diff_add_bg,
        c == colors.color_for(ColorRole::DiffAddBg),
{
    colors.diff_add_bg
}

pub fn diff_del_bg(colors: &ThemeColors) -> (c: Color)
    ensures
        c == colors.diff_del_bg,
        c == colors.color_for(ColorRole::DiffDelBg),
{
    colors.diff_del_bg
}

pub fn diff_add_text(colors: &ThemeColors) -> (c: Color)
    ensures
        c == colors.diff_add_text,
        c == colors.color_for(ColorRole::DiffAddText),
{
    colors.diff_add_text
}

pub fn diff_del_text(colors: &ThemeColors) -> (c: Color)
    ensures
        c == colors.diff_del_text,
        c == colors.color_for(ColorRole::DiffDelText),
{
    colors.diff_del_text
}

pub fn diff_hunk_header(colors: &ThemeColors) -> (c: Color)
    ensures
        c == colors.diff_hunk_header,
        c == colors.color_for(ColorRole::DiffHunkHeader),
{
    colors.diff_hunk_header
}

pub fn scrollbar_thumb(colors: &ThemeColors) -> (c: Color)
    ensures
        c == colors.scrollbar_thumb,
        c == colors.color_for(ColorRole::ScrollbarThumb),
{
    colors.scrollbar_thumb
}

/// The value of a digit is its place among the sixteen, for capitals as for small letters; no other
/// character has one.
pub proof fn law_hex_digits(c: char, v: int)
    ensures
        hex_digit(c) == Some(v) <==> 0 <= v < 16 && (if v < 10 {
            c as int == '0' as int + v
        } else {
            c as int == 'a' as int + v - 10 || c as int == 'A' as int + v - 10
        }),
        hex_digit(c) matches Some(d) ==> 0 <= d < 16,
{
}

/// Signs at the start of a colour make no difference.
pub proof fn law_hash_is_passed_over(s: Seq<char>)
    ensures
        hex_color(seq!['#'] + s) == hex_color(s),
{
    assert((seq!['#'] + s).drop_first() =~= s);
}

/// A colour of three pairs of digits is opaque and has their values in the order red, green, blue;
/// a fourth pair says how opaque it is.
pub proof fn law_hex_color_of_digits(s: Seq<char>)
    requires
        s.len() == 6 || s.len() == 8,
        forall|i: int| 0 <= i < s.len() ==> hex_digit(#[trigger] s[i]) is Some,
    ensures
        hex_color(s) == Some(
            Color {
                r: (16 * hex_digit(s[0])->0 + hex_digit(s[1])->0) as u8,
                g: (16 * hex_digit(s[2])->0 + hex_digit(s[3])->0) as u8,
                b: (16 * hex_digit(s[4])->0 + hex_digit(s[5])->0) as u8,
                a: if s.len() == 8 {
                    (16 * hex_digit(s[6])->0 + hex_digit(s[7])->0) as u8
                } else {
                    255
                },
            },
        ),
{
    assert(hex_digit(s[0]) is Some);
    assert(without_hashes(s) == s);
    lemma_ascii_offsets(s, s.len() as int);
    assert(s.take(s.len() as int) =~= s);
    assert forall|i: int| 0 <= i && 2 * i + 2 <= s.len() implies #[trigger] pair_at(s, i) == Some(
        16 * hex_digit(s[2 * i])->0 + hex_digit(s[2 * i + 1])->0,
    ) by {
        lemma_ascii_offsets(s, 2 * i);
        lemma_ascii_offsets(s, 2 * i + 2);
        text::lemma_ends_at_unique(s, 2 * i, 2 * i);
        text::lemma_ends_at_unique(s, 2 * i + 2, 2 * i + 2);
        let pair = text::byte_slice(s, 2 * i, 2 * i + 2);
        assert(pair[0] == s[2 * i]);
        assert(pair[1] == s[2 * i + 1]);
        assert(hex_digit(s[2 * i]) is Some && hex_digit(s[2 * i + 1]) is Some);
    }
    assert(pair_at(s, 0) is Some && pair_at(s, 1) is Some && pair_at(s, 2) is Some);
    if s.len() == 8 {
        assert(pair_at(s, 3) is Some);
    }
}

proof fn lemma_ascii_offsets(s: Seq<char>, k: int)
    requires
        0 <= k <= s.len(),
        forall|i: int| 0 <= i < s.len() ==> hex_digit(#[trigger] s[i]) is Some,
    ensures
        text::byte_len(s.take(k)) == k,
        text::ends_at(s, k, k),
    decreases k,
{
    if k == 0 {
        assert(s.take(0) =~= Seq::<char>::empty());
        text::lemma_byte_len_empty();
    } else {
        lemma_ascii_offsets(s, k - 1);
        text::lemma_take_step(s, k - 1);
        assert(hex_digit(s[k - 1]) is Some);
    }
}

/// Exactly the bundled themes can be chosen.
pub proof fn law_bundled_themes_can_be_chosen(id: Seq<char>)
    ensures
        label_of(id) is Some <==> is_bundled(id),
{
}

/// More of any colour is brighter. Black is at one end and white at the other, and green counts for
/// more than red, red for more than blue.
pub proof fn law_brightness(a: Color, b: Color)
    ensures
        a.r <= b.r && a.g <= b.g && a.b <= b.b ==> luma(a) <= luma(b),
        a.r == 0 && a.g == 0 && a.b == 0 ==> luma(a) == 0,
        a.r == 255 && a.g == 255 && a.b == 255 ==> luma(a) == 255000,
        a.r == b.g && a.g == b.r && a.b == b.b && a.g > b.g ==> luma(a) > luma(b),
        a.r == b.b && a.b == b.r && a.g == b.g && a.r > b.r ==> luma(a) > luma(b),
{
}

/// An entry of a theme is found by its name; of several the first counts.
pub proof fn law_first_entry_counts(fields: Seq<ThemeField>, name: Seq<char>, i: int)
    requires
        0 <= i < fields.len(),
        forall|j: int| 0 <= j < i ==> (#[trigger] fields[j]).name@ != name,
    ensures
        fields[i].name@ == name ==> field_value(fields, name) == Some(fields[i].value@),
        fields[i].name@ != name && i + 1 == fields.len() ==> field_value(fields, name) is None,
    decreases fields.len(),
{
    reveal_with_fuel(field_value, 2);
    if i > 0 {
        assert(fields[0].name@ != name);
        let rest = fields.drop_first();
        assert(rest[i - 1] == fields[i]);
        assert forall|j: int| 0 <= j < i - 1 implies (#[trigger] rest[j]).name@ != name by {
            assert(rest[j] == fields[j + 1]);
        }
        law_first_entry_counts(rest, name, i - 1);
    }
}

} // verus!
