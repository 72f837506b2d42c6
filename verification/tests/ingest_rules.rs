use wbphotogrammetry::ingest::{
    extract_single_xmp_attr_text, extract_xmp_block, is_accepted_extension,
    parse_dji_makernote_heading_bits, ImageOrientation, OrientationPriorSource,
};

#[test]
fn quarter_turns_swap_dimensions() {
    assert_eq!(ImageOrientation::Rotate90.oriented_dimensions(4000, 3000), (3000, 4000));
    assert_eq!(ImageOrientation::Rotate270.oriented_dimensions(4000, 3000), (3000, 4000));
    assert_eq!(ImageOrientation::Rotate270FlipH.oriented_dimensions(4000, 3000), (3000, 4000));
    assert_eq!(ImageOrientation::Rotate90FlipH.oriented_dimensions(4000, 3000), (3000, 4000));
    assert_eq!(ImageOrientation::Normal.oriented_dimensions(4000, 3000), (4000, 3000));
    assert_eq!(ImageOrientation::Rotate180.oriented_dimensions(4000, 3000), (4000, 3000));
    assert_eq!(ImageOrientation::FlipVertical.oriented_dimensions(1, 2), (1, 2));
    assert_eq!(ImageOrientation::default(), ImageOrientation::Normal);
}

#[test]
fn exif_orientation_tags_map_to_orientations() {
    assert_eq!(ImageOrientation::from_exif_tag(1), ImageOrientation::Normal);
    assert_eq!(ImageOrientation::from_exif_tag(2), ImageOrientation::FlipHorizontal);
    assert_eq!(ImageOrientation::from_exif_tag(3), ImageOrientation::Rotate180);
    assert_eq!(ImageOrientation::from_exif_tag(4), ImageOrientation::FlipVertical);
    assert_eq!(ImageOrientation::from_exif_tag(5), ImageOrientation::Rotate270FlipH);
    assert_eq!(ImageOrientation::from_exif_tag(6), ImageOrientation::Rotate90);
    assert_eq!(ImageOrientation::from_exif_tag(7), ImageOrientation::Rotate90FlipH);
    assert_eq!(ImageOrientation::from_exif_tag(8), ImageOrientation::Rotate270);
    assert_eq!(ImageOrientation::from_exif_tag(0), ImageOrientation::Normal);
    assert_eq!(ImageOrientation::from_exif_tag(9), ImageOrientation::Normal);
    assert_ne!(OrientationPriorSource::XmpDji, OrientationPriorSource::XmpGeneric);
}

#[test]
fn accepted_extensions_ignore_case() {
    for ext in ["jpg", "JPG", "jpeg", "Png", "tif", "TIFF"] {
        assert!(is_accepted_extension(ext), "{ext}");
    }
    for ext in ["gif", "", "jpg ", "tiff2", "bmp"] {
        assert!(!is_accepted_extension(ext), "{ext}");
    }
}

#[test]
fn xmp_block_spans_the_meta_element() {
    let text = "junk<x:xmpmeta xmlns:x='adobe:ns:meta/'><rdf/></x:xmpmeta>trailer</x:xmpmeta>";
    assert_eq!(
        extract_xmp_block(text).as_deref(),
        Some("<x:xmpmeta xmlns:x='adobe:ns:meta/'><rdf/></x:xmpmeta>")
    );
    let packet = "abc<?xpacket begin='x'?><rdf>";
    assert_eq!(extract_xmp_block(packet).as_deref(), Some("<?xpacket begin='x'?><rdf>"));
    let both = "<?xpacket begin?>..<x:xmpmeta>x";
    assert_eq!(extract_xmp_block(both).as_deref(), Some("<x:xmpmeta>x"));
    assert_eq!(extract_xmp_block("no metadata here"), None);
}

#[test]
fn xmp_attribute_text_is_read_between_quotes() {
    let xmp = r#"<rdf:Description drone-dji:FlightYawDegree="+12.50" drone-dji:GimbalPitchDegree = ' -90.0 ' Camera:Yaw=45 />"#;
    assert_eq!(
        extract_single_xmp_attr_text(xmp, "drone-dji:FlightYawDegree").as_deref(),
        Some("+12.50")
    );
    assert_eq!(
        extract_single_xmp_attr_text(xmp, "drone-dji:GimbalPitchDegree").as_deref(),
        Some("-90.0")
    );
    assert_eq!(extract_single_xmp_attr_text(xmp, "Camera:Yaw"), None);
    assert_eq!(extract_single_xmp_attr_text(xmp, "Camera:Roll"), None);
    assert_eq!(extract_single_xmp_attr_text("k=\"unterminated", "k"), None);
    assert_eq!(extract_single_xmp_attr_text("k", "k"), None);
}

fn entry(tag: u16, field_type: u16, count: u32, value: [u8; 4]) -> Vec<u8> {
    let mut v = Vec::new();
    v.extend_from_slice(&tag.to_le_bytes());
    v.extend_from_slice(&field_type.to_le_bytes());
    v.extend_from_slice(&count.to_le_bytes());
    v.extend_from_slice(&value);
    v
}

#[test]
fn dji_makernote_heading_is_found_among_entries() {
    let mut note = vec![3, 0];
    note.extend(entry(1, 3, 1, [0, 0, 0, 0]));
    note.extend(entry(7, 11, 2, [1, 2, 3, 4]));
    note.extend(entry(7, 11, 1, 90.0_f32.to_le_bytes()));
    let bits = parse_dji_makernote_heading_bits(&note).expect("heading");
    assert_eq!(f32::from_bits(bits), 90.0);

    let mut truncated = vec![2, 0];
    truncated.extend(entry(1, 3, 1, [0; 4]));
    truncated.extend_from_slice(&[7, 0, 11, 0]);
    assert_eq!(parse_dji_makernote_heading_bits(&truncated), None);

    let mut beyond_count = vec![1, 0];
    beyond_count.extend(entry(1, 3, 1, [0; 4]));
    beyond_count.extend(entry(7, 11, 1, 45.0_f32.to_le_bytes()));
    assert_eq!(parse_dji_makernote_heading_bits(&beyond_count), None);

    assert_eq!(parse_dji_makernote_heading_bits(&[7]), None);
    assert_eq!(parse_dji_makernote_heading_bits(&[]), None);
}
