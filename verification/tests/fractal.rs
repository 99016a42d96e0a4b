use dessa::fractal_level::{
    crop_imm, encode_capture, fractal_map_id_list, is_fractal_link, map_marker_bytes, ocr_or_empty,
    png_data_url, scrap_buffer_to_rgbaimage, FractalAction, FractalTracker, OcrResponse,
    OcrResponseMeta, RgbaFrame,
};

#[test]
fn fractal_maps_are_found_by_their_marker() {
    assert!(is_fractal_link("{\"context\":{\"map_id\":947,\"map_type\":4}}"));
    assert!(is_fractal_link("\"map_id\":1384,"));
    assert!(is_fractal_link("{\"name\":\"Ädne\",\"map_id\":1177,\"x\":1}"));
    assert!(!is_fractal_link("{\"map_id\":872,\"map_type\":4}"));
    assert!(!is_fractal_link("{\"map_id\":9470,\"map_type\":4}"));
    assert!(!is_fractal_link("{\"map_id\": 947,\"map_type\":4}"));
    assert!(!is_fractal_link("{\"map_id\":947}"));
    assert!(!is_fractal_link(""));
}

#[test]
fn markers_are_the_original_texts() {
    assert_eq!(map_marker_bytes(947), b"\"map_id\":947,".to_vec());
    assert_eq!(map_marker_bytes(1384), b"\"map_id\":1384,".to_vec());
    let ids = fractal_map_id_list();
    assert_eq!(ids.len(), 20);
    assert!(!ids.contains(&872));
    for id in ids {
        let text = format!("{{\"map_id\":{},\"x\":0}}", id);
        assert!(is_fractal_link(&text));
    }
}

#[test]
fn tracker_announces_start_once_and_end_once() {
    let mut t = FractalTracker::new();
    let fractal = "{\"map_id\":956,\"a\":1}";
    let lobby = "{\"map_id\":872,\"a\":1}";
    assert!(!t.is_first_capture());
    assert_eq!(t.on_link(lobby), FractalAction::Nothing);
    assert_eq!(t.on_link(fractal), FractalAction::StartFractal);
    assert!(t.is_first_capture());
    assert_eq!(t.on_link(fractal), FractalAction::Nothing);
    assert_eq!(t.on_link(fractal), FractalAction::Nothing);
    assert_eq!(t.on_link(lobby), FractalAction::EndFractal);
    assert!(!t.is_first_capture());
    assert_eq!(t.on_link(lobby), FractalAction::Nothing);
    assert_eq!(t.on_link(fractal), FractalAction::StartFractal);
}

#[test]
fn capture_is_turned_into_rgba() {
    // Two pixels in a row of 12 bytes (4 bytes of padding), two rows.
    let buffer: Vec<u8> = vec![
        1, 2, 3, 4, 5, 6, 7, 8, 0, 0, 0, 0, //
        9, 10, 11, 12, 13, 14, 15, 16, 0, 0, 0, 0,
    ];
    let img = scrap_buffer_to_rgbaimage(2, 2, &buffer);
    assert_eq!(img.width(), 2);
    assert_eq!(img.height(), 2);
    assert_eq!(img.as_raw(), &[3, 2, 1, 255, 7, 6, 5, 255, 11, 10, 9, 255, 15, 14, 13, 255]);
}

#[test]
fn frames_need_their_pixels() {
    assert!(RgbaFrame::from_raw(2, 2, vec![0; 15]).is_none());
    assert!(RgbaFrame::from_raw(2, 2, vec![0; 16]).is_some());
    assert!(RgbaFrame::from_raw(2, 2, vec![0; 20]).is_some());
}

#[test]
fn crop_keeps_the_region_inside_the_image() {
    let pixels: Vec<u8> = (0u8..24).collect();
    let frame = RgbaFrame::from_raw(3, 2, pixels).unwrap();
    let c = crop_imm(&frame, 1, 0, 5, 5);
    assert_eq!(c.width(), 2);
    assert_eq!(c.height(), 2);
    assert_eq!(c.as_raw(), &[4, 5, 6, 7, 8, 9, 10, 11, 16, 17, 18, 19, 20, 21, 22, 23]);
    let c = crop_imm(&frame, 7, 9, 5, 5);
    assert_eq!(c.width(), 0);
    assert_eq!(c.height(), 0);
}

#[test]
fn crop_matches_the_image_crate() {
    let pixels: Vec<u8> = (0..(7 * 5 * 4)).map(|i| (i * 7 % 251) as u8).collect();
    let frame = RgbaFrame::from_raw(7, 5, pixels.clone()).unwrap();
    let img = image::RgbaImage::from_raw(7, 5, pixels).unwrap();
    for (x, y, w, h) in [(0, 0, 7, 5), (2, 1, 3, 3), (5, 4, 9, 9), (6, 0, 500, 200)] {
        let ours = crop_imm(&frame, x, y, w, h);
        let theirs = image::imageops::crop_imm(&img, x, y, w, h).to_image();
        assert_eq!(ours.width(), theirs.width());
        assert_eq!(ours.height(), theirs.height());
        assert_eq!(ours.as_raw(), theirs.as_raw().as_slice());
    }
}

fn reference_capture(w: usize, h: usize, buffer: &[u8]) -> String {
    let mut bitflipped = Vec::with_capacity(w * h * 4);
    let stride = buffer.len() / h;
    for y in 0..h {
        for x in 0..w {
            let i = stride * y + 4 * x;
            bitflipped.extend_from_slice(&[buffer[i + 2], buffer[i + 1], buffer[i], 255]);
        }
    }
    let im = image::RgbaImage::from_raw(w as u32, h as u32, bitflipped).unwrap();
    let cropped = image::imageops::crop_imm(&im, im.width() - 500, 0, 500, 200);
    let di = image::DynamicImage::ImageRgba8(cropped.to_image());
    let mut buf = Vec::new();
    di.write_to(&mut buf, image::ImageOutputFormat::Png).unwrap();
    format!("data:image/png;base64,{}", base64::encode(&buf))
}

#[test]
fn screenshot_url_matches_the_image_pipeline() {
    let (w, h) = (640usize, 240usize);
    let buffer: Vec<u8> = (0..(w * h * 4)).map(|i| ((i * 31) % 256) as u8).collect();
    let frame = scrap_buffer_to_rgbaimage(w, h, &buffer);
    let url = encode_capture(&frame).unwrap();
    assert!(url.starts_with("data:image/png;base64,iVBORw0KGgo"));
    assert_eq!(url, reference_capture(w, h, &buffer));
}

#[test]
fn short_screenshots_keep_their_height() {
    let (w, h) = (500usize, 3usize);
    let buffer: Vec<u8> = vec![200; w * h * 4];
    let frame = scrap_buffer_to_rgbaimage(w, h, &buffer);
    assert_eq!(encode_capture(&frame).unwrap(), reference_capture(w, h, &buffer));
}

#[test]
fn data_urls_use_standard_base64() {
    assert_eq!(png_data_url(None), None);
    assert_eq!(png_data_url(Some(vec![])).unwrap(), "data:image/png;base64,");
    assert_eq!(png_data_url(Some(b"M".to_vec())).unwrap(), "data:image/png;base64,TQ==");
    assert_eq!(png_data_url(Some(b"Ma".to_vec())).unwrap(), "data:image/png;base64,TWE=");
    assert_eq!(png_data_url(Some(b"Man".to_vec())).unwrap(), "data:image/png;base64,TWFu");
    assert_eq!(png_data_url(Some(vec![0xfb, 0xff, 0xbf])).unwrap(), "data:image/png;base64,+/+/");
}

#[test]
fn unreadable_ocr_replies_give_level_zero() {
    let r = ocr_or_empty(None);
    assert_eq!(r.raw, "");
    assert!(r.lines.is_empty());
    assert_eq!(r.meta.fractal_level, 0);
    assert_eq!(r.meta.personal_fractal_level, 0);
    let reply = OcrResponse {
        raw: "Fractal Scale 97".to_string(),
        lines: vec!["Fractal Scale 97".to_string()],
        meta: OcrResponseMeta { fractal_level: 97, personal_fractal_level: 100 },
    };
    let r = ocr_or_empty(Some(reply));
    assert_eq!(r.raw, "Fractal Scale 97");
    assert_eq!(r.meta.fractal_level, 97);
    assert_eq!(r.meta.personal_fractal_level, 100);
}

#[test]
fn screenshots_without_rows_give_no_url() {
    let frame = RgbaFrame::from_raw(600, 0, vec![]).unwrap();
    assert!(encode_capture(&frame).is_none());
}
