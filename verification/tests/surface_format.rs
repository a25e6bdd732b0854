use particle_sandbox::surface::choose_surface_format;
use wgpu::TextureFormat;

#[test]
fn the_first_srgb_surface_format_is_chosen() {
    let formats = vec![
        TextureFormat::Bgra8Unorm,
        TextureFormat::Bgra8UnormSrgb,
        TextureFormat::Rgba8UnormSrgb,
    ];
    assert_eq!(choose_surface_format(&formats), 1);
    assert_eq!(choose_surface_format(&vec![TextureFormat::Rgba8UnormSrgb]), 0);
    let late = vec![
        TextureFormat::Rgba16Float,
        TextureFormat::Rgb10a2Unorm,
        TextureFormat::Bgra8Unorm,
        TextureFormat::Rgba8UnormSrgb,
    ];
    assert_eq!(choose_surface_format(&late), 3);
}

#[test]
fn without_an_srgb_surface_format_the_first_is_chosen() {
    let formats = vec![TextureFormat::Bgra8Unorm, TextureFormat::Rgba8Unorm];
    assert_eq!(choose_surface_format(&formats), 0);
    assert_eq!(choose_surface_format(&vec![TextureFormat::Rgba16Float]), 0);
}
