//! The choice of a surface format among those that a surface supports.

use crate::shell::{choose_format, first_set};
use vstd::prelude::*;

verus! {

/// wgpu's `TextureFormat`, which this library carries through without
/// looking inside.
#[verifier::external_type_specification]
#[verifier::external_body]
pub struct ExTextureFormat(wgpu::TextureFormat);

/// Whether wgpu counts `format` among the sRGB formats.
pub uninterp spec fn format_is_srgb(format: wgpu::TextureFormat) -> bool;

/// Calls `wgpu::TextureFormat::is_srgb`, which compares the format with
/// what is left of it once an sRGB suffix is taken off. Nothing is claimed
/// of the answer but that it depends on the format alone.
#[verifier::external_body]
fn is_srgb(format: &wgpu::TextureFormat) -> (r: bool)
    ensures
        r == format_is_srgb(*format),
{
    format.is_srgb()
}

/// Of each format, whether it is sRGB.
pub open spec fn srgb_flags(formats: Seq<wgpu::TextureFormat>) -> Seq<bool> {
    Seq::new(formats.len(), |i: int| format_is_srgb(formats[i]))
}

/// The surface format to use, as a position in the list of formats that
/// the surface supports: the first that is sRGB, or the first of all where
/// none is.
pub fn choose_surface_format(formats: &Vec<wgpu::TextureFormat>) -> (r: usize)
    requires
        formats@.len() > 0,
    ensures
        r < formats@.len(),
        r == (match first_set(srgb_flags(formats@)) {
            Some(i) => i,
            None => 0,
        }),
{
    let mut flags: Vec<bool> = Vec::new();
    let mut i: usize = 0;
    while i < formats.len()
        invariant
            i <= formats@.len(),
            flags@.len() == i,
            forall|k: int| 0 <= k < i ==> #[trigger] flags@[k] == format_is_srgb(formats@[k]),
        decreases formats@.len() - i,
    {
        flags.push(is_srgb(&formats[i]));
        i += 1;
    }
    assert(flags@ =~= srgb_flags(formats@));
    choose_format(&flags)
}

} // verus!
