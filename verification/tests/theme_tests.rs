use snack::offsets::{byte_to_utf16, elapsed_label, utf16_to_byte};
use snack::theme::{
    ColorRole, HexColor, RoleColorOverrides, ScrollStatus, Shade, ThemePreset, color_from_hex,
    resolve_palette, scrollbar_interaction, scrollbar_state,
};

fn channel(value: u8) -> f32 {
    f32::from(value) / 255.0
}

#[test]
fn presets_have_distinct_surfaces_and_modes() {
    let countertop = resolve_palette(ThemePreset::Countertop, RoleColorOverrides::default());
    let blue = resolve_palette(ThemePreset::BlueSteel, RoleColorOverrides::default());
    let paper = resolve_palette(ThemePreset::PaperBag, RoleColorOverrides::default());
    assert_ne!(countertop.base, blue.base);
    assert!(channel(countertop.base.r) < 0.2);
    assert!(channel(paper.base.r) > 0.8);
}

#[test]
fn semantic_overrides_replace_only_the_requested_role() {
    let baseline = resolve_palette(ThemePreset::Countertop, RoleColorOverrides::default());
    let custom = HexColor::from_rgb(0x12, 0x34, 0x56);
    let palette = resolve_palette(
        ThemePreset::Countertop,
        RoleColorOverrides {
            danger: Some(custom),
            ..RoleColorOverrides::default()
        },
    );
    assert_eq!(palette.danger, color_from_hex(custom));
    assert_eq!(palette.primary, baseline.primary);
}

#[test]
fn palette_colors_come_from_the_preset_hex_values() {
    let paper = resolve_palette(ThemePreset::PaperBag, RoleColorOverrides::default());
    assert_eq!(paper.base, Shade { r: 0xE9, g: 0xE4, b: 0xDA, alpha: 100 });
    assert_eq!(paper.hover_overlay, Shade { r: 0x5B, g: 0x4D, b: 0x42, alpha: 8 });
    assert_eq!(paper.text[4], Shade { r: 0x9B, g: 0x91, b: 0x85, alpha: 100 });
    let hover = HexColor::from_rgb(1, 2, 3);
    let custom = resolve_palette(
        ThemePreset::BlueSteel,
        RoleColorOverrides { hover: Some(hover), ..RoleColorOverrides::default() },
    );
    assert_eq!(custom.primary_hover, Shade { r: 1, g: 2, b: 3, alpha: 100 });
    assert_eq!(custom.primary, Shade { r: 0x72, g: 0xA9, b: 0xC4, alpha: 100 });
    assert_eq!(hover.rgb(), [1, 2, 3]);
}

#[test]
fn scrollbar_interaction_is_axis_specific() {
    assert_eq!(
        scrollbar_state(
            true,
            ScrollStatus::Active { horizontal_disabled: false, vertical_disabled: false },
        ),
        ((false, false), (false, false))
    );
    assert_eq!(
        scrollbar_state(
            true,
            ScrollStatus::Hovered {
                horizontal_hovered: false,
                vertical_hovered: false,
                horizontal_disabled: false,
                vertical_disabled: false,
            },
        ),
        ((true, false), (true, false))
    );
    assert_eq!(
        scrollbar_state(
            false,
            ScrollStatus::Hovered {
                horizontal_hovered: false,
                vertical_hovered: true,
                horizontal_disabled: false,
                vertical_disabled: false,
            },
        ),
        ((false, false), (true, true))
    );
    assert_eq!(
        scrollbar_state(
            false,
            ScrollStatus::Dragged {
                horizontal_dragged: true,
                vertical_dragged: false,
                horizontal_disabled: false,
                vertical_disabled: false,
            },
        ),
        ((true, true), (false, false))
    );
    assert_eq!(
        scrollbar_interaction(ScrollStatus::Active {
            horizontal_disabled: false,
            vertical_disabled: false,
        }),
        (false, false)
    );
    assert_eq!(
        scrollbar_interaction(ScrollStatus::Hovered {
            horizontal_hovered: false,
            vertical_hovered: true,
            horizontal_disabled: false,
            vertical_disabled: false,
        }),
        (false, true)
    );
    assert_eq!(
        scrollbar_interaction(ScrollStatus::Dragged {
            horizontal_dragged: true,
            vertical_dragged: false,
            horizontal_disabled: false,
            vertical_disabled: false,
        }),
        (true, false)
    );
}

#[test]
fn elapsed_reads_like_a_call_timer() {
    assert_eq!(elapsed_label(0), "0:00");
    assert_eq!(elapsed_label(75), "1:15");
    assert_eq!(elapsed_label(3600 + 62), "1:01:02");
}

#[test]
fn elapsed_label_keeps_counting_hours() {
    assert_eq!(elapsed_label(59), "0:59");
    assert_eq!(elapsed_label(3599), "59:59");
    assert_eq!(elapsed_label(36_000), "10:00:00");
}

#[test]
fn utf16_offsets_map_to_byte_offsets() {
    let text = "a😀é b";
    // a: 1 byte, 1 unit; 😀: 4 bytes, 2 units; é: 2 bytes, 1 unit.
    assert_eq!(utf16_to_byte(text, 0), 0);
    assert_eq!(utf16_to_byte(text, 1), 1);
    assert_eq!(utf16_to_byte(text, 2), 1);
    assert_eq!(utf16_to_byte(text, 3), 5);
    assert_eq!(utf16_to_byte(text, 4), 7);
    assert_eq!(utf16_to_byte(text, 100), text.len());
    assert_eq!(byte_to_utf16(text, 0), 0);
    assert_eq!(byte_to_utf16(text, 1), 1);
    assert_eq!(byte_to_utf16(text, 5), 3);
    assert_eq!(byte_to_utf16(text, 7), 4);
    assert_eq!(byte_to_utf16(text, 100), 6);
}

#[test]
fn palette_readings() {
    let palette = resolve_palette(ThemePreset::Countertop, RoleColorOverrides::default());
    assert_eq!(palette.text_1(), Shade { r: 0xF4, g: 0xEF, b: 0xE6, alpha: 100 });
    assert_eq!(palette.muted(), palette.text[4]);
    assert_eq!(palette.sidebar_fg(), palette.text_3());
    assert_eq!(palette.online(), palette.success);
    assert_eq!(palette.ping(), palette.danger);
    assert_eq!(palette.mention_bg(), Shade { alpha: 24, ..palette.mention_fg() });
    assert_eq!(palette.broadcast_bg().alpha, 24);
    assert_eq!(palette.hover().alpha, 10);
    assert_eq!(palette.active_overlay().alpha, 20);
    assert_eq!(palette.border(), Shade { r: 0x4A, g: 0x44, b: 0x3D, alpha: 100 });
    assert_eq!(palette.bg_base(), palette.base);
    assert_eq!(palette.role_color(ColorRole::Hover), palette.primary_hover);
    assert_eq!(palette.role_color(ColorRole::Warning), palette.warning);
    assert_eq!(palette.text_2(), palette.text[1]);
    assert_eq!(palette.text_4(), palette.text[3]);
}
