//! Trusted surface of the GUI backend.
//!
//! The atlas pixels live in a managed egui texture. These wrappers allocate
//! it and read its identity; the upload into it sits beside the texture's
//! model in `texture`, which pairs the handle with its side.

use vstd::prelude::*;

verus! {

#[verifier::external_type_specification]
#[verifier::external_body]
pub struct ExContext(egui::Context);

#[verifier::external_type_specification]
#[verifier::external_body]
pub struct ExTextureHandle(egui::TextureHandle);

#[verifier::external_type_specification]
#[verifier::external_body]
pub struct ExTextureId(egui::TextureId);

/// Relies on egui::Context::input: it reads the current input state, whose
/// `max_texture_side` is whatever maximum the backend reported. Nothing is
/// promised of the value.
#[verifier::external_body]
pub(crate) fn device_max_texture_side(ctx: &egui::Context) -> (r: usize) {
    ctx.input(|i| i.max_texture_side)
}

/// Relies on egui::Context::load_texture and
/// egui::ColorImage::from_rgba_premultiplied: a managed texture of
/// side-by-side pixels is allocated and filled with the given bytes, four per
/// pixel.
#[verifier::external_body]
pub(crate) fn load_atlas_texture(ctx: &egui::Context, side: usize, rgba: &Vec<u8>) -> (t:
    egui::TextureHandle)
    requires
        rgba.len() == side * side * 4,
{
    ctx.load_texture(
        "egui cosmic text atlas",
        egui::ColorImage::from_rgba_premultiplied([side, side], rgba),
        egui::TextureOptions::NEAREST,
    )
}

/// Relies on egui::TextureHandle::id: the stable identity a painter draws
/// this texture by.
#[verifier::external_body]
pub(crate) fn texture_handle_id(t: &egui::TextureHandle) -> (r: egui::TextureId) {
    t.id()
}

} // verus!
