use vstd::prelude::*;
use vstd::string::StringExecFns;
use vstd::utf8::{decode_utf8, encode_utf8, encode_utf8_decode_utf8, encode_utf8_valid_utf8, valid_utf8};
use crate::text::utf8_str;

verus! {

broadcast use vstd::string::group_string_axioms;

/// The text both echo servers send for `GET /`.
pub open spec fn echo_help_text() -> Seq<char> {
    "Try POSTing data to /echo such as: `curl localhost:8080/echo -XPOST -d 'hello world'`\n"@
}

/// The usage hint served at `/`.
pub fn echo_help() -> (text: &'static str)
    ensures
        text@ == echo_help_text(),
        text@ == "Try POSTing data to /echo such as: `curl localhost:8080/echo -XPOST -d 'hello world'`\n"@,
{
    "Try POSTing data to /echo such as: `curl localhost:8080/echo -XPOST -d 'hello world'`\n"
}

/// The first item read from a request body stream.
pub enum StreamItem {
    Chunk(Vec<u8>),
    Failed,
}

/// What the streaming echo handler answers for the first item of the body:
/// that chunk, or nothing when the stream ended or failed.
pub open spec fn first_chunk_reply(first: Option<StreamItem>) -> Seq<u8> {
    match first {
        Some(StreamItem::Chunk(bytes)) => bytes@,
        _ => Seq::empty(),
    }
}

/// The reply is the first chunk exactly as it came, whatever its length;
/// when the stream is empty or fails, the reply is empty.
pub proof fn lemma_first_chunk_echoed(bytes: Vec<u8>)
    ensures
        first_chunk_reply(Some(StreamItem::Chunk(bytes))) == bytes@,
        first_chunk_reply(Some(StreamItem::Chunk(bytes))).len() == bytes@.len(),
        first_chunk_reply(Some(StreamItem::Failed)).len() == 0,
        first_chunk_reply(None).len() == 0,
{
}

/// Echoes the first chunk of the request body.
pub fn echo_first_chunk(first: Option<StreamItem>) -> (reply: Vec<u8>)
    ensures
        reply@ == first_chunk_reply(first),
        first matches Some(StreamItem::Chunk(bytes)) ==> reply@ == bytes@,
        !(first is Some && first->0 is Chunk) ==> reply@.len() == 0,
{
    match first {
        Some(StreamItem::Chunk(bytes)) => bytes,
        _ => Vec::new(),
    }
}

/// The line the whole-body echo server answers: the body's text followed by
/// a line feed, or nothing when the body is not valid UTF-8.
pub open spec fn echo_reply(body: Seq<u8>) -> Option<Seq<char>> {
    if valid_utf8(body) {
        Some(decode_utf8(body) + "\n"@)
    } else {
        None
    }
}

/// Echoes a whole request body as a line of text: the body followed by a line
/// feed. `None` when the body is not valid UTF-8, where the server gives up
/// on the request.
pub fn echo_line(body: &[u8]) -> (line: Option<String>)
    ensures
        line is Some <==> echo_reply(body@) is Some,
        line matches Some(l) ==> echo_reply(body@) == Some(l@),
        line is Some <==> valid_utf8(body@),
        line matches Some(l) ==> l@ == decode_utf8(body@) + "\n"@,
{
    match utf8_str(body) {
        Some(text) => {
            let mut line = text.to_owned();
            line.append("\n");
            Some(line)
        },
        None => None,
    }
}

/// A body that is not valid UTF-8 gets no reply line.
pub proof fn lemma_echo_refuses_invalid(body: Seq<u8>)
    ensures
        !valid_utf8(body) <==> echo_reply(body) is None,
{
}

/// Whatever text a client posts, the whole-body echo server sends that same
/// text back, followed by a line feed.
pub proof fn lemma_echo_returns_posted_text(text: Seq<char>)
    ensures
        echo_reply(encode_utf8(text)) == Some(text + "\n"@),
{
    encode_utf8_valid_utf8(text);
    encode_utf8_decode_utf8(text);
}

} // verus!
