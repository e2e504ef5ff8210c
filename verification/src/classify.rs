use vstd::prelude::*;
use vstd::string::StringExecFns;
use crate::lines::{label_for, label_or_unknown};
use crate::ranking::{is_top, lemma_ranking_starts_with_top, lemma_top_class_exists, lemma_top_unique, sort_results, top_class};
use crate::text::{decimal, push_decimal, str_equal};

verus! {

broadcast use vstd::string::group_string_axioms;

/// Where a request to the classification server goes.
#[derive(Clone, Copy, Debug, PartialEq, Eq, Structural)]
pub enum Route {
    /// `GET /`: usage instructions.
    Help,
    /// `POST /classify`: classify the posted image.
    Classify,
    /// Anything else.
    NotFound,
}

/// The route for a request with method `method` and path `path`.
pub open spec fn route_of(method: Seq<char>, path: Seq<char>) -> Route {
    if method == "GET"@ && path == "/"@ {
        Route::Help
    } else if method == "POST"@ && path == "/classify"@ {
        Route::Classify
    } else {
        Route::NotFound
    }
}

/// Only `GET /` serves the usage text and only `POST /classify` classifies;
/// every other request, such as `GET /favicon.ico` or `GET /classify`, is
/// answered `404 Not Found`.
pub proof fn lemma_routes(method: Seq<char>, path: Seq<char>)
    ensures
        route_of(method, path) == Route::Help <==> (method == "GET"@ && path == "/"@),
        route_of(method, path) == Route::Classify <==> (method == "POST"@ && path == "/classify"@),
        route_of(method, path) == Route::NotFound <==> !(method == "GET"@ && path == "/"@) && !(method
            == "POST"@ && path == "/classify"@),
{
    reveal_strlit("GET");
    reveal_strlit("POST");
    assert("GET"@.len() == 3 && "POST"@.len() == 4);
    assert("GET"@ != "POST"@);
}

/// Routes a request by its method name and path.
pub fn route(method: &str, path: &str) -> (r: Route)
    ensures
        r == route_of(method@, path@),
        r == Route::Help <==> (method@ == "GET"@ && path@ == "/"@),
        r == Route::Classify <==> (method@ == "POST"@ && path@ == "/classify"@),
{
    proof {
        lemma_routes(method@, path@);
    }
    if str_equal(method, "GET") && str_equal(path, "/") {
        Route::Help
    } else if str_equal(method, "POST") && str_equal(path, "/classify") {
        Route::Classify
    } else {
        Route::NotFound
    }
}

/// A response: its status code and its body.
pub struct ServiceResponse {
    pub status: u16,
    pub body: String,
}

/// The usage text served at `/`.
pub open spec fn classify_help_text() -> Seq<char> {
    "Try POSTing data to /classify such as: `curl http://localhost:3000/classify -X POST --data-binary '@grace_hopper.jpg'`"@
}

/// `200 OK` with the usage text.
pub fn help_response() -> (r: ServiceResponse)
    ensures
        r.status == 200,
        r.body@ == classify_help_text(),
        r.body@ == "Try POSTing data to /classify such as: `curl http://localhost:3000/classify -X POST --data-binary '@grace_hopper.jpg'`"@,
{
    let body = "Try POSTing data to /classify such as: `curl http://localhost:3000/classify -X POST --data-binary '@grace_hopper.jpg'`".to_owned();
    ServiceResponse { status: 200, body }
}

/// `404 Not Found` with an empty body.
pub fn not_found_response() -> (r: ServiceResponse)
    ensures
        r.status == 404,
        r.body@ == Seq::<char>::empty(),
{
    ServiceResponse { status: 404, body: String::new() }
}

/// The sentence that reports a detected class and its score out of 255.
pub open spec fn detection_message(label: Seq<char>, confidence: u8) -> Seq<char> {
    label + " is detected with "@ + decimal(confidence as nat) + "/255 confidence"@
}

/// The report for the model's output `scores`: the label of the top-ranked
/// class and its score.
pub open spec fn classification_text(scores: Seq<u8>, labels: Seq<char>) -> Seq<char> {
    detection_message(label_for(labels, top_class(scores)), scores[top_class(scores)])
}

/// The report is worded `<label> is detected with <score>/255 confidence`.
pub proof fn lemma_detection_wording(label: Seq<char>, score: u8)
    ensures
        detection_message(label, score) == label + " is detected with "@ + decimal(score as nat)
            + "/255 confidence"@,
{
}

/// The report names the class with the highest score (the smallest id among
/// equal scores) by its line of `labels` and gives that score.
pub proof fn lemma_report_names_top_class(scores: Seq<u8>, labels: Seq<char>, k: int)
    requires
        is_top(scores, k),
    ensures
        classification_text(scores, labels) == label_for(labels, k) + " is detected with "@
            + decimal(scores[k] as nat) + "/255 confidence"@,
{
    lemma_top_class_exists(scores);
    lemma_top_unique(scores, k, top_class(scores));
}

/// Ranks the model's scores and gives the best class's label (the line of
/// `labels` at the class id, or `Unknown`) and its score.
pub fn best_class(scores: &[u8], labels: &str) -> (best: (String, u8))
    requires
        scores@.len() > 0,
    ensures
        best.0@ == label_for(labels@, top_class(scores@)),
        best.1 == scores@[top_class(scores@)],
{
    let results = sort_results(scores);
    proof {
        lemma_ranking_starts_with_top(scores@, results@);
    }
    let top = results[0];
    (label_or_unknown(labels, top.0), top.1)
}

/// The sentence reporting `label` detected with `score` out of 255.
pub fn detection_sentence(label: &str, score: u8) -> (message: String)
    ensures
        message@ == detection_message(label@, score),
{
    let mut message = label.to_owned();
    message.append(" is detected with ");
    push_decimal(&mut message, score as u64);
    message.append("/255 confidence");
    assert(message@ =~= detection_message(label@, score));
    message
}

/// `200 OK` reporting `label` detected with `score` out of 255.
pub fn detection_response(label: &str, score: u8) -> (r: ServiceResponse)
    ensures
        r.status == 200,
        r.body@ == detection_message(label@, score),
{
    ServiceResponse { status: 200, body: detection_sentence(label, score) }
}

/// Reports the best class by its label and its score.
pub fn classification_message(scores: &[u8], labels: &str) -> (message: String)
    requires
        scores@.len() > 0,
    ensures
        message@ == classification_text(scores@, labels@),
{
    let (label, score) = best_class(scores, labels);
    detection_sentence(label.as_str(), score)
}

/// `200 OK` with the classification report.
pub fn classification_response(scores: &[u8], labels: &str) -> (r: ServiceResponse)
    requires
        scores@.len() > 0,
    ensures
        r.status == 200,
        r.body@ == classification_text(scores@, labels@),
{
    ServiceResponse { status: 200, body: classification_message(scores, labels) }
}

/// Whether the `image` crate can guess the format of `raw` and decode it.
pub uninterp spec fn image_decodes(raw: Seq<u8>) -> bool;

/// Whether `rgb` is a result the `image` crate can give for `raw` decoded and
/// resized to exactly `width` x `height`: row-major RGB bytes, one per
/// channel. A relation rather than a function: the JPEG decoder picks its
/// path from the CPU, so one input has more than one possible result.
pub uninterp spec fn resized_rgb(raw: Seq<u8>, width: u32, height: u32, rgb: Seq<u8>) -> bool;

/// Runs the `image` crate on `raw`: `io::Reader` with a guessed format,
/// `decode`, `DynamicImage::resize_exact` with the triangle filter, then
/// `to_rgb8` and `into_raw`. The steps pass an opaque `DynamicImage` between
/// them, so they form one item. Claimed: a result comes back exactly when the
/// data decodes (`image_decodes`); it is an outcome of decoding `raw` and
/// resizing it to `width` x `height` (`resized_rgb`), and it holds three
/// bytes per pixel of that size (`resize_exact` gives exactly that size). The
/// pixel values themselves are left unsaid: the JPEG decoder picks a SIMD
/// path from the CPU at run time, and its output differs from the portable
/// path, so they are not a function of the bytes alone. The `requires` keeps
/// the buffer length within `usize`, where `ImageBuffer::new` would panic.
#[verifier::external_body]
fn decode_resize_rgb8(raw: &[u8], width: u32, height: u32) -> (rgb: Option<Vec<u8>>)
    requires
        3 * (width as int) * (height as int) <= usize::MAX,
    ensures
        rgb is Some <==> image_decodes(raw@),
        rgb matches Some(t) ==> resized_rgb(raw@, width, height, t@),
        rgb matches Some(t) ==> t@.len() == 3 * (width as int) * (height as int),
{
    let reader = image::io::Reader::new(std::io::Cursor::new(raw)).with_guessed_format().ok()?;
    let pixels = reader.decode().ok()?;
    Some(pixels.resize_exact(width, height, image::imageops::Triangle).to_rgb8().into_raw())
}

/// The input tensor for an image: decoded, resized to `width` x `height` and
/// laid out as row-major RGB bytes, one byte per channel.
pub fn image_to_tensor(raw_data: &[u8], height: u32, width: u32) -> (tensor: Vec<u8>)
    requires
        3 * (width as int) * (height as int) <= usize::MAX,
        image_decodes(raw_data@),
    ensures
        resized_rgb(raw_data@, width, height, tensor@),
        tensor@.len() == 3 * (width as int) * (height as int),
{
    match decode_resize_rgb8(raw_data, width, height) {
        Some(t) => t,
        None => Vec::new(),
    }
}

/// Like `image_to_tensor`, but answers `None` for data that is not a
/// decodable image.
pub fn try_image_to_tensor(raw_data: &[u8], height: u32, width: u32) -> (tensor: Option<Vec<u8>>)
    requires
        3 * (width as int) * (height as int) <= usize::MAX,
    ensures
        tensor is Some <==> image_decodes(raw_data@),
        tensor matches Some(t) ==> resized_rgb(raw_data@, width, height, t@),
        tensor matches Some(t) ==> t@.len() == 3 * (width as int) * (height as int),
{
    if decode_resize_rgb8(raw_data, width, height).is_some() {
        Some(image_to_tensor(raw_data, height, width))
    } else {
        None
    }
}

} // verus!
