use render_core::texture::{
    calculate_mip_levels, pack_faces, CubemapFaces, PixelFormat, TextureDescription,
};

#[test]
fn mip_levels_count_halvings_of_the_smaller_dimension() {
    assert_eq!(calculate_mip_levels(512, 256), 9);
    assert_eq!(calculate_mip_levels(256, 512), 9);
    assert_eq!(calculate_mip_levels(1, 1), 1);
    assert_eq!(calculate_mip_levels(3, 2), 2);
    assert_eq!(calculate_mip_levels(1024, 1024), 11);
    assert_eq!(calculate_mip_levels(0, 64), 0);
}

#[test]
fn rgb_pixels_gain_an_opaque_alpha_channel() {
    let d = TextureDescription::from_parts(PixelFormat::R8G8B8, 2, 1, vec![1, 2, 3, 4, 5, 6]);
    assert_eq!(d.format, PixelFormat::R8G8B8A8);
    assert_eq!(d.pixels, vec![1, 2, 3, 255, 4, 5, 6, 255]);
    assert_eq!(d.width, 2);
    assert_eq!(d.height, 1);
    assert_eq!(d.mip_levels, 1);
}

#[test]
fn bgr_pixels_gain_an_opaque_alpha_channel() {
    let d = TextureDescription::from_parts(PixelFormat::B8G8R8, 1, 1, vec![9, 8, 7]);
    assert_eq!(d.format, PixelFormat::B8G8R8A8);
    assert_eq!(d.pixels, vec![9, 8, 7, 255]);
}

#[test]
fn wide_formats_pass_through_untouched() {
    let d = TextureDescription::from_parts(PixelFormat::R8G8B8A8, 1, 1, vec![1, 2, 3, 4]);
    assert_eq!(d.format, PixelFormat::R8G8B8A8);
    assert_eq!(d.pixels, vec![1, 2, 3, 4]);
}

#[test]
fn cubemap_faces_come_in_upload_order() {
    let faces = CubemapFaces {
        right: "r".to_string(),
        left: "l".to_string(),
        top: "t".to_string(),
        bottom: "bo".to_string(),
        front: "f".to_string(),
        back: "ba".to_string(),
    };
    let ordered = faces.ordered_faces();
    assert_eq!(ordered, vec!["r", "l", "t", "bo", "ba", "f"]);
}

#[test]
fn mip_chain_dimensions_halve_down_to_one() {
    let dims = render_core::texture::mip_chain_dimensions(8, 3, 5);
    assert_eq!(dims, vec![(8, 3), (4, 1), (2, 1), (1, 1), (1, 1)]);
    assert_eq!(render_core::texture::mip_chain_dimensions(4, 4, 0), vec![]);
}

#[test]
fn cubemap_description_takes_extent_and_format_from_the_first_face() {
    let face = |w: u32| TextureDescription {
        format: PixelFormat::B8G8R8A8,
        width: w,
        height: w,
        pixels: vec![0; (4 * w * w) as usize],
        mip_levels: 1,
    };
    let faces = vec![face(16), face(16)];
    let d = render_core::texture::cubemap_description(&faces);
    assert_eq!(d.width, 16);
    assert_eq!(d.height, 16);
    assert_eq!(d.format, PixelFormat::B8G8R8A8);
    assert_eq!(d.mip_levels, 1);
    assert!(d.pixels.is_empty());
}

#[test]
fn face_packing_concatenates_pixels_and_records_offsets() {
    let face = |pixels: Vec<u8>| TextureDescription {
        format: PixelFormat::R8G8B8A8,
        width: 1,
        height: 1,
        pixels,
        mip_levels: 1,
    };
    let faces = vec![face(vec![1, 2]), face(vec![3]), face(vec![4, 5, 6])];
    let (pixels, offsets) = pack_faces(&faces);
    assert_eq!(pixels, vec![1, 2, 3, 4, 5, 6]);
    assert_eq!(offsets, vec![0, 2, 3]);
}
