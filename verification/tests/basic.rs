use egui_cosmic_text::add;
use egui_cosmic_text::interact::{ClickType, EditorActions, Interactivity};
use egui_cosmic_text::pixels::{bitmap_is_wf, render_rgba, GlyphBitmap, GlyphContent, Rgba};

#[test]
fn it_works() {
    let result = add(2, 2);
    assert_eq!(result, 4);
}

#[test]
fn interactivity_flags() {
    assert!(Interactivity::Enabled.input());
    assert!(Interactivity::Enabled.selection());
    assert!(!Interactivity::Selection.input());
    assert!(Interactivity::Selection.selection());
    assert!(!Interactivity::Disabled.input());
    assert!(!Interactivity::Disabled.selection());
}

#[test]
fn click_type_promotes_in_a_cycle() {
    assert_eq!(ClickType::Single.promote(), ClickType::Double);
    assert_eq!(ClickType::Double.promote(), ClickType::Triple);
    assert_eq!(ClickType::Triple.promote(), ClickType::Single);
}

#[test]
fn editor_actions_default_requests_nothing() {
    let actions = EditorActions::default();
    assert!(!actions.scroll_to_cursor);
    assert!(!actions.focus);
}

#[test]
fn render_mask_premultiplies_default_color_by_coverage() {
    let bitmap = GlyphBitmap {
        width: 3,
        height: 1,
        left: 0,
        top: 0,
        content: GlyphContent::Mask,
        data: vec![0, 255, 128],
    };
    let default_color = Rgba { r: 10, g: 20, b: 30, a: 40 };
    let out = render_rgba(&bitmap, default_color);
    assert_eq!(out, vec![0, 0, 0, 0, 10, 20, 30, 255, 5, 10, 15, 128]);
}

#[test]
fn render_color_copies_premultiplied_bytes() {
    let bitmap = GlyphBitmap {
        width: 1,
        height: 2,
        left: 0,
        top: 0,
        content: GlyphContent::Color,
        data: vec![1, 2, 3, 4, 5, 6, 7, 8],
    };
    let default_color = Rgba { r: 255, g: 255, b: 255, a: 255 };
    let out = render_rgba(&bitmap, default_color);
    assert_eq!(out, vec![1, 2, 3, 4, 5, 6, 7, 8]);
}

#[test]
fn bitmap_well_formedness_checks_byte_count() {
    let good = GlyphBitmap {
        width: 3,
        height: 2,
        left: 0,
        top: 0,
        content: GlyphContent::Mask,
        data: vec![0; 6],
    };
    assert!(bitmap_is_wf(&good));
    let short = GlyphBitmap {
        width: 3,
        height: 2,
        left: 0,
        top: 0,
        content: GlyphContent::Mask,
        data: vec![0; 5],
    };
    assert!(!bitmap_is_wf(&short));
    let color_wants_four_bytes_per_pixel = GlyphBitmap {
        width: 3,
        height: 2,
        left: 0,
        top: 0,
        content: GlyphContent::Color,
        data: vec![0; 6],
    };
    assert!(!bitmap_is_wf(&color_wants_four_bytes_per_pixel));
}
