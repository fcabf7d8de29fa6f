//! The theme: the colour palettes of the presets with the user's role
//! colours applied, and when scrollbars show.

use vstd::prelude::*;

verus! {

// ---------------------------------------------------------------------------
// Scrollbars
// ---------------------------------------------------------------------------

/// The state of a scrollable area, as the GUI toolkit reports it.
#[derive(Debug, Clone, Copy, PartialEq, Eq, Structural)]
pub enum ScrollStatus {
    Active { horizontal_disabled: bool, vertical_disabled: bool },
    Hovered { horizontal_hovered: bool, vertical_hovered: bool, horizontal_disabled: bool, vertical_disabled: bool },
    Dragged { horizontal_dragged: bool, vertical_dragged: bool, horizontal_disabled: bool, vertical_disabled: bool },
}

/// Is the pointer on, or dragging, the horizontal and the vertical
/// scrollbar?
pub open spec fn interaction_spec(status: ScrollStatus) -> (bool, bool) {
    match status {
        ScrollStatus::Hovered { horizontal_hovered, vertical_hovered, .. } => (horizontal_hovered, vertical_hovered),
        ScrollStatus::Dragged { horizontal_dragged, vertical_dragged, .. } => (horizontal_dragged, vertical_dragged),
        ScrollStatus::Active { .. } => (false, false),
    }
}

pub fn scrollbar_interaction(status: ScrollStatus) -> (r: (bool, bool))
    ensures
        r == interaction_spec(status),
{
    match status {
        ScrollStatus::Hovered { horizontal_hovered, vertical_hovered, .. } => (horizontal_hovered, vertical_hovered),
        ScrollStatus::Dragged { horizontal_dragged, vertical_dragged, .. } => (horizontal_dragged, vertical_dragged),
        ScrollStatus::Active { .. } => (false, false),
    }
}

/// For the horizontal and the vertical scrollbar: is it visible, and is the
/// pointer on it? A scrollbar shows while the pointer is on it, and, when
/// scrollbars follow activity, while the area is hovered or dragged.
pub open spec fn scrollbar_state_spec(activity_enabled: bool, status: ScrollStatus) -> ((bool, bool), (bool, bool)) {
    let active = activity_enabled && !(status is Active);
    let (h, v) = interaction_spec(status);
    ((active || h, h), (active || v, v))
}

pub fn scrollbar_state(activity_enabled: bool, status: ScrollStatus) -> (r: ((bool, bool), (bool, bool)))
    ensures
        r == scrollbar_state_spec(activity_enabled, status),
{
    let activity_visible = activity_enabled && match status {
        ScrollStatus::Hovered { .. } => true,
        ScrollStatus::Dragged { .. } => true,
        ScrollStatus::Active { .. } => false,
    };
    let (h, v) = scrollbar_interaction(status);
    ((activity_visible || h, h), (activity_visible || v, v))
}

// ---------------------------------------------------------------------------
// Palettes
// ---------------------------------------------------------------------------

/// A colour: sRGB bytes and an opacity in hundredths.
#[derive(Debug, Clone, Copy, PartialEq, Eq, Structural)]
pub struct Shade {
    pub r: u8,
    pub g: u8,
    pub b: u8,
    pub alpha: u8,
}

/// The built-in themes.
#[derive(Debug, Clone, Copy, PartialEq, Eq, Structural, Default)]
pub enum ThemePreset {
    #[default]
    Countertop,
    BlueSteel,
    PaperBag,
}

/// A colour the user picked, as sRGB bytes.
#[derive(Debug, Clone, Copy, PartialEq, Eq, Structural)]
pub struct HexColor {
    pub r: u8,
    pub g: u8,
    pub b: u8,
}

impl HexColor {
    pub fn from_rgb(r: u8, g: u8, b: u8) -> (c: Self)
        ensures
            c == (HexColor { r, g, b }),
    {
        HexColor { r, g, b }
    }

    pub fn rgb(&self) -> (r: [u8; 3])
        ensures
            r@ == seq![self.r, self.g, self.b],
    {
        let r = [self.r, self.g, self.b];
        assert(r@ =~= seq![self.r, self.g, self.b]);
        r
    }
}

/// The user's colours for the semantic roles, where set.
#[derive(Debug, Clone, Copy, PartialEq, Eq, Default)]
pub struct RoleColorOverrides {
    pub primary: Option<HexColor>,
    pub hover: Option<HexColor>,
    pub mention: Option<HexColor>,
    pub success: Option<HexColor>,
    pub warning: Option<HexColor>,
    pub danger: Option<HexColor>,
}

/// The colours of a theme.
#[derive(Debug, Clone, Copy, PartialEq, Eq)]
pub struct Palette {
    pub base: Shade,
    pub panel: Shade,
    pub elevated: Shade,
    pub elevated_high: Shade,
    /// Text, from the most to the least prominent.
    pub text: [Shade; 5],
    pub border: Shade,
    pub hover_overlay: Shade,
    pub active_overlay: Shade,
    pub primary: Shade,
    pub primary_hover: Shade,
    pub success: Shade,
    pub warning: Shade,
    pub danger: Shade,
    pub mention: Shade,
    pub broadcast: Shade,
}

/// An opaque colour from `0xRRGGBB`.
pub open spec fn hex_spec(value: u32) -> Shade {
    Shade { r: (value / 0x10000 % 0x100) as u8, g: (value / 0x100 % 0x100) as u8, b: (value % 0x100) as u8, alpha: 100 }
}

/// A colour from `0xRRGGBB` with an opacity in hundredths.
pub open spec fn rgba_spec(value: u32, alpha: u8) -> Shade {
    Shade { alpha, ..hex_spec(value) }
}

pub open spec fn from_hex_spec(value: HexColor) -> Shade {
    Shade { r: value.r, g: value.g, b: value.b, alpha: 100 }
}

/// The text colours of a palette.
pub open spec fn texts(a: u32, b: u32, c: u32, d: u32, e: u32) -> Seq<Shade> {
    seq![hex_spec(a), hex_spec(b), hex_spec(c), hex_spec(d), hex_spec(e)]
}

/// A preset's palette as plain values: its surface colours, its text
/// colours, then its border, overlays and role colours.
pub struct PaletteModel {
    pub base: Shade,
    pub panel: Shade,
    pub elevated: Shade,
    pub elevated_high: Shade,
    pub text: Seq<Shade>,
    pub border: Shade,
    pub hover_overlay: Shade,
    pub active_overlay: Shade,
    pub primary: Shade,
    pub primary_hover: Shade,
    pub success: Shade,
    pub warning: Shade,
    pub danger: Shade,
    pub mention: Shade,
    pub broadcast: Shade,
}

impl View for Palette {
    type V = PaletteModel;

    open spec fn view(&self) -> PaletteModel {
        PaletteModel {
            base: self.base,
            panel: self.panel,
            elevated: self.elevated,
            elevated_high: self.elevated_high,
            text: self.text@,
            border: self.border,
            hover_overlay: self.hover_overlay,
            active_overlay: self.active_overlay,
            primary: self.primary,
            primary_hover: self.primary_hover,
            success: self.success,
            warning: self.warning,
            danger: self.danger,
            mention: self.mention,
            broadcast: self.broadcast,
        }
    }
}

pub open spec fn preset_palette(preset: ThemePreset) -> PaletteModel {
    match preset {
        ThemePreset::Countertop => PaletteModel {
            base: hex_spec(0x171615),
            panel: hex_spec(0x24211F),
            elevated: hex_spec(0x302D29),
            elevated_high: hex_spec(0x3D3934),
            text: texts(0xF4EFE6, 0xC8BEB0, 0xA69C90, 0x7E756C, 0x625B54),
            border: hex_spec(0x4A443D),
            hover_overlay: rgba_spec(0xD8C7B4, 10),
            active_overlay: rgba_spec(0xE8A17D, 20),
            primary: hex_spec(0xE8875B),
            primary_hover: hex_spec(0xF0A07B),
            success: hex_spec(0x62B184),
            warning: hex_spec(0xD9A441),
            danger: hex_spec(0xD86B62),
            mention: hex_spec(0xEE9B6E),
            broadcast: hex_spec(0xE5B84F),
        },
        ThemePreset::BlueSteel => PaletteModel {
            base: hex_spec(0x15191D),
            panel: hex_spec(0x20262C),
            elevated: hex_spec(0x2B333B),
            elevated_high: hex_spec(0x37424C),
            text: texts(0xEDF2F5, 0xB7C1C9, 0x96A3AD, 0x6F7D88, 0x53606A),
            border: hex_spec(0x44515C),
            hover_overlay: rgba_spec(0xAFC4D1, 10),
            active_overlay: rgba_spec(0x72A9C4, 22),
            primary: hex_spec(0x72A9C4),
            primary_hover: hex_spec(0x91BED3),
            success: hex_spec(0x62B38B),
            warning: hex_spec(0xD5A64B),
            danger: hex_spec(0xD66D72),
            mention: hex_spec(0x7DB7D3),
            broadcast: hex_spec(0xD8B45A),
        },
        ThemePreset::PaperBag => PaletteModel {
            base: hex_spec(0xE9E4DA),
            panel: hex_spec(0xF7F3EC),
            elevated: hex_spec(0xDED7CC),
            elevated_high: hex_spec(0xD2C9BC),
            text: texts(0x292622, 0x514B44, 0x665F57, 0x81786E, 0x9B9185),
            border: hex_spec(0xC8BEB0),
            hover_overlay: rgba_spec(0x5B4D42, 8),
            active_overlay: rgba_spec(0xB84F3D, 16),
            primary: hex_spec(0xB84F3D),
            primary_hover: hex_spec(0x943E31),
            success: hex_spec(0x347A55),
            warning: hex_spec(0x9A6B13),
            danger: hex_spec(0xA43E3E),
            mention: hex_spec(0xA84B3B),
            broadcast: hex_spec(0x8E681A),
        },
    }
}

/// The user's colour for a role where set, else the preset's.
pub open spec fn override_spec(value: Option<HexColor>, fallback: Shade) -> Shade {
    match value {
        Some(c) => from_hex_spec(c),
        None => fallback,
    }
}

/// A preset's palette with the user's role colours applied.
pub open spec fn resolve_spec(preset: ThemePreset, o: RoleColorOverrides) -> PaletteModel {
    let p = preset_palette(preset);
    PaletteModel {
        primary: override_spec(o.primary, p.primary),
        primary_hover: override_spec(o.hover, p.primary_hover),
        mention: override_spec(o.mention, p.mention),
        success: override_spec(o.success, p.success),
        warning: override_spec(o.warning, p.warning),
        danger: override_spec(o.danger, p.danger),
        ..p
    }
}

fn hex(value: u32) -> (r: Shade)
    ensures
        r == hex_spec(value),
{
    Shade { r: (value / 0x10000 % 0x100) as u8, g: (value / 0x100 % 0x100) as u8, b: (value % 0x100) as u8, alpha: 100 }
}

fn rgba(value: u32, alpha: u8) -> (r: Shade)
    ensures
        r == rgba_spec(value, alpha),
{
    Shade { alpha, ..hex(value) }
}

/// An opaque colour from the user's choice.
pub fn color_from_hex(value: HexColor) -> (r: Shade)
    ensures
        r == from_hex_spec(value),
{
    let rgb = value.rgb();
    Shade { r: rgb[0], g: rgb[1], b: rgb[2], alpha: 100 }
}

fn override_color(value: Option<HexColor>, fallback: Shade) -> (r: Shade)
    ensures
        r == override_spec(value, fallback),
{
    match value {
        Some(c) => color_from_hex(c),
        None => fallback,
    }
}

fn text_ramp(a: u32, b: u32, c: u32, d: u32, e: u32) -> (r: [Shade; 5])
    ensures
        r@ == texts(a, b, c, d, e),
{
    let r = [hex(a), hex(b), hex(c), hex(d), hex(e)];
    assert(r@ =~= texts(a, b, c, d, e));
    r
}

/// The palette of `preset` with the user's role colours applied.
pub fn resolve_palette(preset: ThemePreset, overrides: RoleColorOverrides) -> (r: Palette)
    ensures
        r@ == resolve_spec(preset, overrides),
{
    let mut palette = match preset {
        ThemePreset::Countertop => Palette {
            base: hex(0x171615),
            panel: hex(0x24211F),
            elevated: hex(0x302D29),
            elevated_high: hex(0x3D3934),
            text: text_ramp(0xF4EFE6, 0xC8BEB0, 0xA69C90, 0x7E756C, 0x625B54),
            border: hex(0x4A443D),
            hover_overlay: rgba(0xD8C7B4, 10),
            active_overlay: rgba(0xE8A17D, 20),
            primary: hex(0xE8875B),
            primary_hover: hex(0xF0A07B),
            success: hex(0x62B184),
            warning: hex(0xD9A441),
            danger: hex(0xD86B62),
            mention: hex(0xEE9B6E),
            broadcast: hex(0xE5B84F),
        },
        ThemePreset::BlueSteel => Palette {
            base: hex(0x15191D),
            panel: hex(0x20262C),
            elevated: hex(0x2B333B),
            elevated_high: hex(0x37424C),
            text: text_ramp(0xEDF2F5, 0xB7C1C9, 0x96A3AD, 0x6F7D88, 0x53606A),
            border: hex(0x44515C),
            hover_overlay: rgba(0xAFC4D1, 10),
            active_overlay: rgba(0x72A9C4, 22),
            primary: hex(0x72A9C4),
            primary_hover: hex(0x91BED3),
            success: hex(0x62B38B),
            warning: hex(0xD5A64B),
            danger: hex(0xD66D72),
            mention: hex(0x7DB7D3),
            broadcast: hex(0xD8B45A),
        },
        ThemePreset::PaperBag => Palette {
            base: hex(0xE9E4DA),
            panel: hex(0xF7F3EC),
            elevated: hex(0xDED7CC),
            elevated_high: hex(0xD2C9BC),
            text: text_ramp(0x292622, 0x514B44, 0x665F57, 0x81786E, 0x9B9185),
            border: hex(0xC8BEB0),
            hover_overlay: rgba(0x5B4D42, 8),
            active_overlay: rgba(0xB84F3D, 16),
            primary: hex(0xB84F3D),
            primary_hover: hex(0x943E31),
            success: hex(0x347A55),
            warning: hex(0x9A6B13),
            danger: hex(0xA43E3E),
            mention: hex(0xA84B3B),
            broadcast: hex(0x8E681A),
        },
    };
    palette.primary = override_color(overrides.primary, palette.primary);
    palette.primary_hover = override_color(overrides.hover, palette.primary_hover);
    palette.mention = override_color(overrides.mention, palette.mention);
    palette.success = override_color(overrides.success, palette.success);
    palette.warning = override_color(overrides.warning, palette.warning);
    palette.danger = override_color(overrides.danger, palette.danger);
    palette
}


// ---------------------------------------------------------------------------
// Reading a palette
// ---------------------------------------------------------------------------

/// The semantic roles whose colour the user can set.
#[derive(Debug, Clone, Copy, PartialEq, Eq, Structural)]
pub enum ColorRole {
    Primary,
    Hover,
    Mention,
    Success,
    Warning,
    Danger,
}

pub open spec fn role_spec(p: PaletteModel, role: ColorRole) -> Shade {
    match role {
        ColorRole::Primary => p.primary,
        ColorRole::Hover => p.primary_hover,
        ColorRole::Mention => p.mention,
        ColorRole::Success => p.success,
        ColorRole::Warning => p.warning,
        ColorRole::Danger => p.danger,
    }
}

impl Palette {
    /// The window background.
    pub fn bg_base(&self) -> (r: Shade)
        ensures
            r == self.base,
    {
        self.base
    }

    /// The most prominent text.
    pub fn text_1(&self) -> (r: Shade)
        ensures
            r == self.text@[0],
    {
        self.text[0]
    }

    pub fn text_2(&self) -> (r: Shade)
        ensures
            r == self.text@[1],
    {
        self.text[1]
    }

    pub fn text_3(&self) -> (r: Shade)
        ensures
            r == self.text@[2],
    {
        self.text[2]
    }

    pub fn text_4(&self) -> (r: Shade)
        ensures
            r == self.text@[3],
    {
        self.text[3]
    }

    /// The least prominent text.
    pub fn text_5(&self) -> (r: Shade)
        ensures
            r == self.text@[4],
    {
        self.text[4]
    }

    /// Muted text: the least prominent text colour.
    pub fn muted(&self) -> (r: Shade)
        ensures
            r == self.text@[4],
    {
        self.text_5()
    }

    /// Sidebar labels: the third text colour.
    pub fn sidebar_fg(&self) -> (r: Shade)
        ensures
            r == self.text@[2],
    {
        self.text_3()
    }

    /// The presence dot of someone online: the success colour.
    pub fn online(&self) -> (r: Shade)
        ensures
            r == self.success,
    {
        self.success
    }

    /// Mention badges: the danger colour.
    pub fn ping(&self) -> (r: Shade)
        ensures
            r == self.danger,
    {
        self.danger
    }

    pub fn mention_fg(&self) -> (r: Shade)
        ensures
            r == self.mention,
    {
        self.mention
    }

    /// The background of a mention: its colour at 24% opacity.
    pub fn mention_bg(&self) -> (r: Shade)
        ensures
            r == (Shade { alpha: 24, ..self.mention }),
    {
        Shade { alpha: 24, ..self.mention }
    }

    pub fn broadcast_fg(&self) -> (r: Shade)
        ensures
            r == self.broadcast,
    {
        self.broadcast
    }

    /// The background of a broadcast mention: its colour at 24% opacity.
    pub fn broadcast_bg(&self) -> (r: Shade)
        ensures
            r == (Shade { alpha: 24, ..self.broadcast }),
    {
        Shade { alpha: 24, ..self.broadcast }
    }

    pub fn hover(&self) -> (r: Shade)
        ensures
            r == self.hover_overlay,
    {
        self.hover_overlay
    }

    pub fn active_overlay(&self) -> (r: Shade)
        ensures
            r == self.active_overlay,
    {
        self.active_overlay
    }

    pub fn border(&self) -> (r: Shade)
        ensures
            r == self.border,
    {
        self.border
    }

    /// The colour of a semantic role.
    pub fn role_color(&self, role: ColorRole) -> (r: Shade)
        ensures
            r == role_spec(self@, role),
    {
        match role {
            ColorRole::Primary => self.primary,
            ColorRole::Hover => self.primary_hover,
            ColorRole::Mention => self.mention,
            ColorRole::Success => self.success,
            ColorRole::Warning => self.warning,
            ColorRole::Danger => self.danger,
        }
    }
}

// ---------------------------------------------------------------------------
// Laws
// ---------------------------------------------------------------------------

/// A role colour the user sets replaces that role's colour and no other:
/// every other colour is the preset's, whatever the other overrides are.
pub proof fn law_override_replaces_only_its_role(preset: ThemePreset, o: RoleColorOverrides)
    ensures
        ({
            let p = resolve_spec(preset, o);
            let base = resolve_spec(preset, RoleColorOverrides {
                primary: None,
                hover: None,
                mention: None,
                success: None,
                warning: None,
                danger: None,
            });
            &&& o.danger is Some ==> p.danger == from_hex_spec(o.danger->0)
            &&& o.danger is None ==> p.danger == base.danger
            &&& o.primary is Some ==> p.primary == from_hex_spec(o.primary->0)
            &&& o.primary is None ==> p.primary == base.primary
            &&& o.hover is Some ==> p.primary_hover == from_hex_spec(o.hover->0)
            &&& o.hover is None ==> p.primary_hover == base.primary_hover
            &&& o.mention is Some ==> p.mention == from_hex_spec(o.mention->0)
            &&& o.mention is None ==> p.mention == base.mention
            &&& o.success is Some ==> p.success == from_hex_spec(o.success->0)
            &&& o.success is None ==> p.success == base.success
            &&& o.warning is Some ==> p.warning == from_hex_spec(o.warning->0)
            &&& o.warning is None ==> p.warning == base.warning
            &&& p.base == base.base && p.panel == base.panel && p.elevated == base.elevated
            &&& p.elevated_high == base.elevated_high && p.text == base.text && p.border == base.border
            &&& p.hover_overlay == base.hover_overlay && p.active_overlay == base.active_overlay
            &&& p.broadcast == base.broadcast
        }),
{
}

/// Whether the pointer is on a scrollbar does not depend on whether
/// scrollbars follow activity, and a scrollbar the pointer is on is shown.
pub proof fn law_interacting_scrollbar_is_shown(enabled: bool, status: ScrollStatus)
    ensures
        scrollbar_state_spec(enabled, status).0.1 == scrollbar_state_spec(false, status).0.1,
        scrollbar_state_spec(enabled, status).1.1 == scrollbar_state_spec(false, status).1.1,
        scrollbar_state_spec(enabled, status).0.1 ==> scrollbar_state_spec(enabled, status).0.0,
        scrollbar_state_spec(enabled, status).1.1 ==> scrollbar_state_spec(enabled, status).1.0,
{
}

} // verus!
