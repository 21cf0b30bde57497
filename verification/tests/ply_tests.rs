use oxihuman::ply_format::{
    find_header_end, parse_ply_ascii_header, parse_ply_binary_layout, parse_usize_chars, ply_field,
    ply_prop_position, PlyError, PlyPropType,
};

#[test]
fn ascii_header_reads_counts_and_properties() {
    let text = "ply\nformat ascii 1.0\nelement vertex 2\nproperty float x\nproperty float Y\nproperty float z\nproperty uchar red\nend_header\n1 2 3 255\n4 5 6 0\n";
    let h = parse_ply_ascii_header(text).unwrap();
    assert_eq!(h.vertex_count, 2);
    assert_eq!(h.properties.len(), 4);
    assert_eq!(h.properties[1].name, "y");
    assert!(!h.has_normals);
    assert!(h.has_colors);
    assert_eq!(h.body, "1 2 3 255\n4 5 6 0\n");
    assert_eq!(ply_prop_position(&h.properties, "z"), Some(2));
    assert_eq!(ply_prop_position(&h.properties, "nx"), None);
}

#[test]
fn ascii_header_errors() {
    assert_eq!(parse_ply_ascii_header("").err(), Some(PlyError::NotPly));
    assert_eq!(parse_ply_ascii_header("obj\nend_header\n").err(), Some(PlyError::NotPly));
    assert_eq!(parse_ply_ascii_header("ply\nelement vertex 3\n").err(), Some(PlyError::UnexpectedEndOfHeader));
    assert_eq!(
        parse_ply_ascii_header("ply\nelement vertex -3\nend_header\n").err(),
        Some(PlyError::BadVertexCount)
    );
}

#[test]
fn ascii_header_trims_lines() {
    let h = parse_ply_ascii_header("  ply \r\n element vertex  +7\r\nproperty float nx\r\n end_header \r\nrest").unwrap();
    assert_eq!(h.vertex_count, 7);
    assert!(h.has_normals);
    assert_eq!(h.body, "rest");
}

#[test]
fn usize_parsing_follows_std() {
    for t in ["0", "42", "+42", "007", "", "+", "-1", "4x", "18446744073709551616", "99999999999999999999999"] {
        let chars: Vec<char> = t.chars().collect();
        assert_eq!(parse_usize_chars(&chars), t.parse::<usize>().ok(), "{t}");
    }
}

#[test]
fn header_end_position() {
    assert_eq!(find_header_end(b"ply\nend_header\n"), Some(4));
    assert_eq!(find_header_end(b"end_heade"), None);
    assert_eq!(find_header_end(b"xxend_headerend_header"), Some(2));
}

#[test]
fn byte_sizes() {
    assert_eq!(PlyPropType::Float32.byte_size(), 4);
    assert_eq!(PlyPropType::Float64.byte_size(), 8);
    assert_eq!(PlyPropType::Uint8.byte_size(), 1);
    assert_eq!(PlyPropType::Int32.byte_size(), 4);
    assert_eq!(PlyPropType::Int16.byte_size(), 2);
}

#[test]
fn binary_layout_of_rows() {
    let mut data: Vec<u8> = b"ply\nformat binary_little_endian 1.0\nelement vertex 3\nproperty float x\nproperty float y\nproperty double z\nproperty uchar red\nend_header\n".to_vec();
    let body = data.len();
    data.extend_from_slice(&[0u8; 17 * 2 + 5]);
    let l = parse_ply_binary_layout(&data).unwrap();
    assert_eq!(l.vertex_count, 3);
    assert_eq!(l.stride, 17);
    assert_eq!(l.body_start, body);
    assert_eq!(l.row_count, 2);
    assert!(!l.has_normals);
    assert!(l.has_colors);
    assert_eq!(ply_field(&l.properties, "z"), Some((8, PlyPropType::Float64)));
    assert_eq!(ply_field(&l.properties, "red"), Some((16, PlyPropType::Uint8)));
    assert_eq!(ply_field(&l.properties, "nx"), None);
}

#[test]
fn binary_layout_errors() {
    assert_eq!(parse_ply_binary_layout(b"ply\nno header end").err(), Some(PlyError::NoEndHeader));
    assert_eq!(
        parse_ply_binary_layout(b"ply\nelement vertex x\nend_header\n").err(),
        Some(PlyError::BadVertexCount)
    );
    assert_eq!(parse_ply_binary_layout(b"ply\n\xff\nend_header\n").err(), Some(PlyError::HeaderNotUtf8));
}

#[test]
fn ascii_header_lowercases_property_names() {
    let h = parse_ply_ascii_header("ply\nelement vertex 1\nproperty float X\nproperty float NY\nproperty uchar Red\nend_header\n1 2 3\n")
        .unwrap();
    let names: Vec<&str> = h.properties.iter().map(|p| p.name.as_str()).collect();
    assert_eq!(names, vec!["x", "ny", "red"]);
    assert!(h.has_normals);
    assert!(h.has_colors);
    let h = parse_ply_ascii_header("ply\nproperty float x\nproperty float y\nproperty float z\nend_header\n").unwrap();
    assert!(!h.has_normals);
    assert!(!h.has_colors);
}
