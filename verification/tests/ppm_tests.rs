use rt::ppm::{encode_ppm, push_decimal, push_signed_decimal, Rgb};

#[test]
fn an_image_is_encoded_as_p3_text() {
    let pixels = vec![Rgb { r: 255, g: 0, b: 12 }, Rgb { r: 1, g: 128, b: 255 }];
    let out = encode_ppm(2, 1, &pixels);
    assert_eq!(String::from_utf8(out).unwrap(), "P3\n2 1\n255\n255 0 12\n1 128 255\n");
}

#[test]
fn an_empty_image_has_only_its_header() {
    let out = encode_ppm(800, 600, &vec![]);
    assert_eq!(String::from_utf8(out).unwrap(), "P3\n800 600\n255\n");
}

#[test]
fn decimal_text_matches_display() {
    for n in [0u64, 7, 10, 99, 100, 65535, u64::MAX] {
        let mut out = vec![b'x'];
        push_decimal(&mut out, n);
        assert_eq!(String::from_utf8(out).unwrap(), format!("x{}", n));
    }
    for v in [0i32, -1, 42, -255, i32::MAX, i32::MIN] {
        let mut out = Vec::new();
        push_signed_decimal(&mut out, v);
        assert_eq!(String::from_utf8(out).unwrap(), v.to_string());
    }
}

#[test]
fn negative_levels_are_written_with_a_sign() {
    let out = encode_ppm(1, 1, &vec![Rgb { r: -3, g: 0, b: 0 }]);
    assert_eq!(String::from_utf8(out).unwrap(), "P3\n1 1\n255\n-3 0 0\n");
}

#[test]
fn the_header_size_reads_back_as_a_command_line_number() {
    for (w, h) in [(0usize, 1usize), (800, 600), (usize::MAX, 12345)] {
        let out = String::from_utf8(encode_ppm(w, h, &vec![])).unwrap();
        let size_line = out.lines().nth(1).unwrap();
        let mut parts = size_line.split(' ');
        assert_eq!(rt::text::parse_usize(parts.next().unwrap()), Some(w));
        assert_eq!(rt::text::parse_usize(parts.next().unwrap()), Some(h));
    }
}
