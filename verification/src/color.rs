//! Colours of wires, icons and the canvas itself.
use crate::model::Rgb;
use crate::text::{leaf, leaf_of, same_text};
use vstd::prelude::*;

verus! {

/// A colour with transparency, its channels multiplied by its opacity.
#[derive(Clone, Copy, Debug, PartialEq, Eq, Structural)]
pub struct Rgba {
    pub r: u8,
    pub g: u8,
    pub b: u8,
    pub a: u8,
}

/// A channel multiplied by an opacity, rounded to the nearest.
pub open spec fn faded_channel(v: u8, a: u8) -> u8 {
    ((2 * v * a + 255) / 510) as u8
}

/// The colour at the given opacity.
pub open spec fn faded(r: u8, g: u8, b: u8, a: u8) -> Rgba {
    Rgba { r: faded_channel(r, a), g: faded_channel(g, a), b: faded_channel(b, a), a }
}

/// `egui::Color32::from_rgba_unmultiplied` multiplies each channel by the
/// opacity, as a part of 255, and rounds it to the nearest; it keeps the
/// opacity.
#[verifier::external_body]
fn from_rgba_unmultiplied(r: u8, g: u8, b: u8, a: u8) -> (c: Rgba)
    ensures
        c == faded(r, g, b, a),
{
    let [r, g, b, a] = egui::Color32::from_rgba_unmultiplied(r, g, b, a).to_array();
    Rgba { r, g, b, a }
}

/// The channels of `c` at the given opacity.
pub fn at_opacity(c: Rgba, a: u8) -> (r: Rgba)
    ensures
        r == faded(c.r, c.g, c.b, a),
{
    from_rgba_unmultiplied(c.r, c.g, c.b, a)
}

/// The colour without transparency.
pub fn opaque(c: Rgb) -> (r: Rgba)
    ensures
        r == (Rgba { r: c.r, g: c.g, b: c.b, a: 255 }),
{
    Rgba { r: c.r, g: c.g, b: c.b, a: 255 }
}

// ── Wires ────────────────────────────────────────────────────────────────

/// The line colour of the standard library's connector class `leaf`: blue for
/// pins, black for mechanics, red for heat, light blue for fluids, dark blue,
/// purple and orange for signals, grey for frames, black for any other.
pub open spec fn connector_color(leaf: Seq<char>) -> Rgb {
    if leaf == "Pin"@ || leaf == "PositivePin"@ || leaf == "NegativePin"@ || leaf == "Plug"@ || leaf == "PositivePlug"@ || leaf == "NegativePlug"@ {
        Rgb { r: 0, g: 0, b: 255 }
    } else if leaf == "Flange_a"@ || leaf == "Flange_b"@ || leaf == "Flange"@ || leaf == "Support"@ {
        Rgb { r: 0, g: 0, b: 0 }
    } else if leaf == "HeatPort_a"@ || leaf == "HeatPort_b"@ || leaf == "HeatPort"@ {
        Rgb { r: 191, g: 0, b: 0 }
    } else if leaf == "FluidPort"@ || leaf == "FluidPort_a"@ || leaf == "FluidPort_b"@ {
        Rgb { r: 0, g: 127, b: 255 }
    } else if leaf == "RealInput"@ || leaf == "RealOutput"@ {
        Rgb { r: 0, g: 0, b: 127 }
    } else if leaf == "BooleanInput"@ || leaf == "BooleanOutput"@ {
        Rgb { r: 255, g: 0, b: 255 }
    } else if leaf == "IntegerInput"@ || leaf == "IntegerOutput"@ {
        Rgb { r: 255, g: 127, b: 0 }
    } else if leaf == "Frame"@ || leaf == "Frame_a"@ || leaf == "Frame_b"@ {
        Rgb { r: 95, g: 95, b: 95 }
    } else {
        Rgb { r: 0, g: 0, b: 0 }
    }
}

/// The colour of a wire between connectors of a class that is known by its
/// path alone.
pub fn wire_color_for(connector_type: &str) -> (r: Rgb)
    ensures
        r == connector_color(leaf(connector_type@)),
{
    let last = leaf_of(connector_type);
    let l: &str = last.as_str();
    if same_text(l, "Pin") || same_text(l, "PositivePin") || same_text(l, "NegativePin") || same_text(l, "Plug") || same_text(l, "PositivePlug") || same_text(l, "NegativePlug") {
        Rgb { r: 0, g: 0, b: 255 }
    } else if same_text(l, "Flange_a") || same_text(l, "Flange_b") || same_text(l, "Flange") || same_text(l, "Support") {
        Rgb { r: 0, g: 0, b: 0 }
    } else if same_text(l, "HeatPort_a") || same_text(l, "HeatPort_b") || same_text(l, "HeatPort") {
        Rgb { r: 191, g: 0, b: 0 }
    } else if same_text(l, "FluidPort") || same_text(l, "FluidPort_a") || same_text(l, "FluidPort_b") {
        Rgb { r: 0, g: 127, b: 255 }
    } else if same_text(l, "RealInput") || same_text(l, "RealOutput") {
        Rgb { r: 0, g: 0, b: 127 }
    } else if same_text(l, "BooleanInput") || same_text(l, "BooleanOutput") {
        Rgb { r: 255, g: 0, b: 255 }
    } else if same_text(l, "IntegerInput") || same_text(l, "IntegerOutput") {
        Rgb { r: 255, g: 127, b: 0 }
    } else if same_text(l, "Frame") || same_text(l, "Frame_a") || same_text(l, "Frame_b") {
        Rgb { r: 95, g: 95, b: 95 }
    } else {
        Rgb { r: 0, g: 0, b: 0 }
    }
}

/// A channel that is brought nearer to full.
pub open spec fn lifted(v: u8) -> u8 {
    if v + 80 > 255 {
        255
    } else {
        (v + 80) as u8
    }
}

fn lift(v: u8) -> (r: u8)
    ensures
        r == lifted(v),
{
    if v > 175 {
        255
    } else {
        v + 80
    }
}

/// The colour of a selected wire: lighter, and opaque.
pub fn brighten(c: Rgba) -> (r: Rgba)
    ensures
        r == (Rgba { r: lifted(c.r), g: lifted(c.g), b: lifted(c.b), a: 255 }),
{
    Rgba { r: lift(c.r), g: lift(c.g), b: lift(c.b), a: 255 }
}

// ── Themes ───────────────────────────────────────────────────────────────

/// The colours of a theme that the canvas uses.
#[derive(Clone, Copy, Debug, PartialEq, Eq, Structural)]
pub struct Theme {
    pub base: Rgba,
    pub surface0: Rgba,
    pub surface2: Rgba,
    pub overlay0: Rgba,
    pub overlay1: Rgba,
    pub text: Rgba,
    pub text_subdued: Rgba,
    pub accent: Rgba,
    pub warning: Rgba,
    pub success: Rgba,
    pub canvas_card: Rgba,
}

/// The colours that icons and ports are drawn with.
#[derive(Clone, Copy, Debug, PartialEq, Eq, Structural)]
pub struct CanvasThemeSnapshot {
    pub card_fill: Rgba,
    pub node_label: Rgba,
    pub type_label: Rgba,
    pub port_fill: Rgba,
    pub port_stroke: Rgba,
    pub select_stroke: Rgba,
    pub inactive_stroke: Rgba,
    pub icon_only_stroke: Rgba,
    /// Whether icons that have graphics of their own get a hairline.
    pub show_authored_icon_border: bool,
}

impl CanvasThemeSnapshot {
    /// The colours of a theme. Icons with graphics of their own get no
    /// hairline.
    pub fn from_theme(theme: &Theme) -> (r: CanvasThemeSnapshot)
        ensures
            r == (CanvasThemeSnapshot {
                card_fill: theme.canvas_card,
                node_label: theme.text,
                type_label: theme.text_subdued,
                port_fill: theme.overlay1,
                port_stroke: theme.surface2,
                select_stroke: theme.accent,
                inactive_stroke: theme.overlay0,
                icon_only_stroke: theme.warning,
                show_authored_icon_border: false,
            }),
    {
        CanvasThemeSnapshot {
            card_fill: theme.canvas_card,
            node_label: theme.text,
            type_label: theme.text_subdued,
            port_fill: theme.overlay1,
            port_stroke: theme.surface2,
            select_stroke: theme.accent,
            inactive_stroke: theme.overlay0,
            icon_only_stroke: theme.warning,
            show_authored_icon_border: false,
        }
    }
}

/// The colours that the canvas's own layers are drawn with.
#[derive(Clone, Copy, Debug, PartialEq, Eq, Structural)]
pub struct CanvasLayerTheme {
    pub grid: Rgba,
    pub selection_outline: Rgba,
    pub ghost_edge: Rgba,
    pub snap_target: Rgba,
    pub rubber_band_fill: Rgba,
    pub rubber_band_stroke: Rgba,
    pub overlay_fill: Rgba,
    pub overlay_stroke: Rgba,
    pub overlay_shadow: Rgba,
    pub overlay_text: Rgba,
}

/// The colours of the canvas's own layers under a theme: a dim grid, a faint
/// rubber band, a soft shadow.
pub fn layer_theme_from(theme: &Theme) -> (r: CanvasLayerTheme)
    ensures
        r == (CanvasLayerTheme {
            grid: faded(theme.overlay0.r, theme.overlay0.g, theme.overlay0.b, 60),
            selection_outline: theme.accent,
            ghost_edge: theme.accent,
            snap_target: theme.success,
            rubber_band_fill: faded(theme.accent.r, theme.accent.g, theme.accent.b, 40),
            rubber_band_stroke: theme.accent,
            overlay_fill: theme.surface0,
            overlay_stroke: theme.surface2,
            overlay_shadow: faded(theme.base.r, theme.base.g, theme.base.b, 110),
            overlay_text: theme.text,
        }),
{
    CanvasLayerTheme {
        grid: at_opacity(theme.overlay0, 60),
        selection_outline: theme.accent,
        ghost_edge: theme.accent,
        snap_target: theme.success,
        rubber_band_fill: at_opacity(theme.accent, 40),
        rubber_band_stroke: theme.accent,
        overlay_fill: theme.surface0,
        overlay_stroke: theme.surface2,
        overlay_shadow: at_opacity(theme.base, 110),
        overlay_text: theme.text,
    }
}

// ── Laws ─────────────────────────────────────────────────────────────────

/// At full opacity a colour keeps its channels, at none it has none left, and in
/// between each channel is the part of it that the opacity gives, to the nearest
/// number.
pub proof fn law_opacity_scales_channels(v: u8, a: u8)
    ensures
        -255 <= 2 * (255 * faded_channel(v, a) - v * a) <= 255,
        a == 255 ==> faded_channel(v, a) == v,
        a == 0 ==> faded_channel(v, a) == 0,
        faded_channel(v, a) <= v,
{
    let p = v * a;
    assert(0 <= p <= 255 * v && p <= 255 * 255) by (nonlinear_arith)
        requires
            p == v * a,
            0 <= v <= 255,
            0 <= a <= 255,
    ;
    assert(2 * v * a == 2 * p) by (nonlinear_arith)
        requires
            p == v * a,
    ;
    if a == 0 {
        assert(p == 0) by (nonlinear_arith)
            requires
                p == v * a,
                a == 0,
        ;
    }
}

/// A channel that is brought nearer to full gains eighty, up to full.
pub proof fn law_lifted_channels_gain_eighty(v: u8)
    ensures
        lifted(v) >= v,
        lifted(v) == v + 80 || (lifted(v) == 255 && v + 80 > 255),
{
}

} // verus!
