use wasmedge_hyper_demo::classify::{
    best_class, classification_message, classification_response, detection_response,
    detection_sentence, help_response, image_to_tensor, not_found_response, route,
    try_image_to_tensor, Route,
};
use wasmedge_hyper_demo::echo::{echo_first_chunk, echo_help, echo_line, StreamItem};
use wasmedge_hyper_demo::lines::{label_or_unknown, line_count, nth_line};
use wasmedge_hyper_demo::ranking::{sort_results, InferenceResult};
use wasmedge_hyper_demo::text::{decimal_string, str_equal};

#[test]
fn echo_help_text() {
    assert_eq!(
        echo_help(),
        "Try POSTing data to /echo such as: `curl localhost:8080/echo -XPOST -d 'hello world'`\n"
    );
}

#[test]
fn echo_whole_body() {
    assert_eq!(echo_line(b"WasmEdge"), Some("WasmEdge\n".to_string()));
    assert_eq!(echo_line(b""), Some("\n".to_string()));
    assert_eq!(echo_line(&[0xc3, 0x28]), None);
}

#[test]
fn echo_first_chunk_only() {
    assert_eq!(echo_first_chunk(Some(StreamItem::Chunk(b"WasmEdge".to_vec()))), b"WasmEdge".to_vec());
    assert_eq!(echo_first_chunk(Some(StreamItem::Failed)), Vec::<u8>::new());
    assert_eq!(echo_first_chunk(None), Vec::<u8>::new());
}

#[test]
fn routes() {
    assert_eq!(route("GET", "/"), Route::Help);
    assert_eq!(route("POST", "/classify"), Route::Classify);
    assert_eq!(route("GET", "/classify"), Route::NotFound);
    assert_eq!(route("POST", "/"), Route::NotFound);
    assert_eq!(route("PUT", "/classify"), Route::NotFound);
    assert_eq!(route("POST", "/classify/"), Route::NotFound);
}

#[test]
fn fixed_responses() {
    let help = help_response();
    assert_eq!(help.status, 200);
    assert_eq!(
        help.body,
        "Try POSTing data to /classify such as: `curl http://localhost:3000/classify -X POST --data-binary '@grace_hopper.jpg'`"
    );
    let missing = not_found_response();
    assert_eq!(missing.status, 404);
    assert_eq!(missing.body, "");
}

#[test]
fn ranking_orders_by_score_then_id() {
    let results = sort_results(&[3, 7, 7, 1, 7]);
    assert_eq!(
        results,
        vec![
            InferenceResult(1, 7),
            InferenceResult(2, 7),
            InferenceResult(4, 7),
            InferenceResult(0, 3),
            InferenceResult(3, 1),
        ]
    );
    assert_eq!(sort_results(&[]), Vec::<InferenceResult>::new());
}

#[test]
fn ranking_matches_stable_sort() {
    let buffer: Vec<u8> = (0..200u32).map(|i| ((i * 37 + 11) % 23) as u8).collect();
    let mut expected: Vec<InferenceResult> =
        buffer.iter().enumerate().map(|(c, p)| InferenceResult(c, *p)).collect();
    expected.sort_by(|a, b| b.1.partial_cmp(&a.1).unwrap());
    assert_eq!(sort_results(&buffer), expected);
}

#[test]
fn classification_report() {
    let labels = "background\ntabby cat\nmilitary uniform\n";
    assert_eq!(
        classification_message(&[3, 5, 206], labels),
        "military uniform is detected with 206/255 confidence"
    );
    assert_eq!(
        classification_message(&[9, 9, 2], labels),
        "background is detected with 9/255 confidence"
    );
    assert_eq!(
        classification_message(&[0, 0, 0, 255], labels),
        "Unknown is detected with 255/255 confidence"
    );
    let r = classification_response(&[1, 0], "a\r\nb");
    assert_eq!(r.status, 200);
    assert_eq!(r.body, "a is detected with 1/255 confidence");
}

#[test]
fn line_counting_like_std() {
    for text in ["", "\n", "a", "a\n", "a\nb", "a\r\nb\r\n", "a\r", "\n\n", "x\ry\n", "h\u{e9}\nz"] {
        assert_eq!(line_count(text), text.lines().count(), "{:?}", text);
        for n in 0..4 {
            assert_eq!(nth_line(text, n).as_deref(), text.lines().nth(n), "{:?} {}", text, n);
            assert_eq!(label_or_unknown(text, n), text.lines().nth(n).unwrap_or("Unknown"));
        }
    }
}

#[test]
fn decimal_digits() {
    assert_eq!(decimal_string(0), "0");
    assert_eq!(decimal_string(7), "7");
    assert_eq!(decimal_string(255), "255");
    assert_eq!(decimal_string(1000), "1000");
    assert_eq!(decimal_string(u64::MAX), u64::MAX.to_string());
}

#[test]
fn string_equality() {
    assert!(str_equal("GET", "GET"));
    assert!(!str_equal("GET", "GE"));
    assert!(!str_equal("GET", "get"));
    assert!(str_equal("", ""));
    assert!(str_equal("h\u{e9}", "h\u{e9}"));
}

fn png_of(width: u32, height: u32, pixel: [u8; 3]) -> Vec<u8> {
    let img = image::RgbImage::from_pixel(width, height, image::Rgb(pixel));
    let mut out = std::io::Cursor::new(Vec::new());
    img.write_to(&mut out, image::ImageOutputFormat::Png).unwrap();
    out.into_inner()
}

#[test]
fn image_tensor_resizes_to_rgb() {
    let png = png_of(4, 6, [10, 20, 30]);
    let tensor = try_image_to_tensor(&png, 2, 3).unwrap();
    assert_eq!(tensor.len(), 2 * 3 * 3);
    for px in tensor.chunks(3) {
        assert_eq!(px, &[10, 20, 30]);
    }
    let full = try_image_to_tensor(&png, 224, 224).unwrap();
    assert_eq!(full.len(), 224 * 224 * 3);
    assert_ne!(full, png);
}

#[test]
fn undecodable_image() {
    assert_eq!(try_image_to_tensor(b"not an image", 224, 224), None);
}

#[test]
fn tensor_is_width_by_height_row_major() {
    // A 2 x 1 image, left pixel red and right pixel blue, kept at its size.
    let mut img = image::RgbImage::new(2, 1);
    img.put_pixel(0, 0, image::Rgb([255, 0, 0]));
    img.put_pixel(1, 0, image::Rgb([0, 0, 255]));
    let mut out = std::io::Cursor::new(Vec::new());
    img.write_to(&mut out, image::ImageOutputFormat::Png).unwrap();
    let png = out.into_inner();
    assert_eq!(image_to_tensor(&png, 1, 2), vec![255, 0, 0, 0, 0, 255]);
    // Resized to 1 wide and 3 high: three rows of one pixel.
    assert_eq!(image_to_tensor(&png, 3, 1).len(), 9);
}

#[test]
fn detection_wording() {
    assert_eq!(detection_sentence("tabby cat", 0), "tabby cat is detected with 0/255 confidence");
    let r = detection_response("military uniform", 206);
    assert_eq!(r.status, 200);
    assert_eq!(r.body, "military uniform is detected with 206/255 confidence");
}

#[test]
fn best_class_label_and_score() {
    let labels = "background\ntabby cat\nmilitary uniform\n";
    let (label, score) = best_class(&[3, 5, 206], labels);
    assert_eq!(label, "military uniform");
    assert_eq!(score, 206);
    let (label, score) = best_class(&[0, 0, 0, 9], labels);
    assert_eq!(label, "Unknown");
    assert_eq!(score, 9);
}

#[test]
fn permuted_scores_give_same_column() {
    let b1: Vec<u8> = vec![4, 9, 1, 9, 0, 4];
    let b2: Vec<u8> = vec![9, 0, 4, 1, 4, 9];
    let c1: Vec<u8> = sort_results(&b1).iter().map(|r| r.1).collect();
    let c2: Vec<u8> = sort_results(&b2).iter().map(|r| r.1).collect();
    assert_eq!(c1, c2);
    assert_eq!(c1, vec![9, 9, 4, 4, 1, 0]);
}
