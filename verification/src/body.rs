use vstd::prelude::*;
use vstd::utf8::{decode_utf8, valid_utf8};
use crate::text::{all_ascii, ascii_string, ascii_text};

verus! {

broadcast use vstd::string::group_string_axioms;

/// One frame of a streamed HTTP body: a chunk of data, or trailers.
pub enum Frame {
    Data(Vec<u8>),
    Trailers,
}

/// The bytes a frame adds to the body.
pub open spec fn frame_bytes(frame: Frame) -> Seq<u8> {
    match frame {
        Frame::Data(bytes) => bytes@,
        Frame::Trailers => Seq::empty(),
    }
}

/// The body that a run of frames carries: their data chunks, in order.
pub open spec fn body_of(frames: Seq<Frame>) -> Seq<u8>
    decreases frames.len(),
{
    if frames.len() == 0 {
        Seq::empty()
    } else {
        body_of(frames.drop_last()) + frame_bytes(frames.last())
    }
}

/// Receiving frames in two runs gives the body of the first run followed by
/// the body of the second: a body does not depend on how its frames were
/// grouped when they arrived.
pub proof fn lemma_body_of_concat(first: Seq<Frame>, second: Seq<Frame>)
    ensures
        body_of(first + second) == body_of(first) + body_of(second),
    decreases second.len(),
{
    if second.len() == 0 {
        assert(first + second =~= first);
        assert(body_of(first) + body_of(second) =~= body_of(first));
    } else {
        lemma_body_of_concat(first, second.drop_last());
        assert((first + second).drop_last() =~= first + second.drop_last());
        assert((first + second).last() == second.last());
        assert(body_of(first) + body_of(second) =~= body_of(first) + body_of(second.drop_last())
            + frame_bytes(second.last()));
    }
}

/// A data frame adds exactly its bytes, trailers add nothing, so the body of
/// a single data frame is that frame's bytes in full and no frames make an
/// empty body.
pub proof fn lemma_frame_contributions(bytes: Vec<u8>)
    ensures
        frame_bytes(Frame::Data(bytes)) == bytes@,
        frame_bytes(Frame::Trailers) == Seq::<u8>::empty(),
        body_of(seq![Frame::Data(bytes)]) == bytes@,
        body_of(seq![Frame::Trailers]) == Seq::<u8>::empty(),
        body_of(Seq::<Frame>::empty()) == Seq::<u8>::empty(),
{
    assert(body_of(Seq::<Frame>::empty()) == Seq::<u8>::empty());
    assert(seq![Frame::Data(bytes)].drop_last() =~= Seq::<Frame>::empty());
    assert(seq![Frame::Trailers].drop_last() =~= Seq::<Frame>::empty());
    assert(body_of(seq![Frame::Data(bytes)]) == body_of(Seq::<Frame>::empty()) + bytes@);
    assert(body_of(seq![Frame::Trailers]) == body_of(Seq::<Frame>::empty()) + Seq::<u8>::empty());
    assert(Seq::<u8>::empty() + bytes@ =~= bytes@);
    assert(Seq::<u8>::empty() + Seq::<u8>::empty() =~= Seq::<u8>::empty());
}

/// Gathers the data of a response body as its frames arrive.
pub struct BodyCollector {
    data: Vec<u8>,
}

impl View for BodyCollector {
    type V = Seq<u8>;

    closed spec fn view(&self) -> Seq<u8> {
        self.data@
    }
}

impl BodyCollector {
    /// A collector that has seen no frame.
    pub fn new() -> (c: Self)
        ensures
            c@ == Seq::<u8>::empty(),
    {
        BodyCollector { data: Vec::new() }
    }

    /// Takes in the next frame: a data frame's bytes are appended, trailers
    /// add nothing.
    pub fn push_frame(&mut self, frame: Frame)
        ensures
            final(self)@ == old(self)@ + frame_bytes(frame),
            frame matches Frame::Data(bytes) ==> final(self)@ == old(self)@ + bytes@,
            frame is Trailers ==> final(self)@ == old(self)@,
    {
        match frame {
            Frame::Data(bytes) => {
                let mut i: usize = 0;
                let ghost start = self.data@;
                while i < bytes.len()
                    invariant
                        0 <= i <= bytes@.len(),
                        self.data@ == start + bytes@.take(i as int),
                    decreases bytes@.len() - i,
                {
                    self.data.push(bytes[i]);
                    proof {
                        assert(bytes@.take(i + 1) =~= bytes@.take(i as int).push(bytes@[i as int]));
                    }
                    i = i + 1;
                }
                assert(bytes@.take(bytes@.len() as int) =~= bytes@);
            },
            Frame::Trailers => {
                assert(self.data@ =~= self.data@ + Seq::<u8>::empty());
            },
        }
    }

    /// The bytes gathered so far.
    pub fn into_bytes(self) -> (bytes: Vec<u8>)
        ensures
            bytes@ == self@,
    {
        self.data
    }
}

/// The body carried by `frames`.
pub fn collect_body(frames: Vec<Frame>) -> (body: Vec<u8>)
    ensures
        body@ == body_of(frames@),
{
    let mut collector = BodyCollector::new();
    let mut frames = frames;
    let ghost all = frames@;
    let mut rest: Vec<Frame> = Vec::new();
    // Take the frames from the back and put them back in order.
    while frames.len() > 0
        invariant
            all == frames@ + rest@.reverse(),
        decreases frames@.len(),
    {
        let f = frames.pop().unwrap();
        proof {
            assert(rest@.push(f).reverse() =~= seq![f] + rest@.reverse());
        }
        rest.push(f);
    }
    assert(all =~= rest@.reverse());
    let ghost n = rest@.len();
    while rest.len() > 0
        invariant
            n == all.len(),
            rest@.len() <= n,
            forall|k: int| 0 <= k < rest@.len() ==> rest@[k] == all[n - 1 - k],
            collector@ == body_of(all.take(n - rest@.len())),
        decreases rest@.len(),
    {
        let ghost before = rest@.len();
        let f = rest.pop().unwrap();
        proof {
            let m = n - before;
            assert(f == all[m]);
            assert(all.take(m + 1).drop_last() =~= all.take(m));
        }
        collector.push_frame(f);
    }
    assert(all.take(n as int) =~= all);
    collector.into_bytes()
}

/// What `String::from_utf8_lossy` makes of `bytes`.
pub uninterp spec fn lossy_text(bytes: Seq<u8>) -> Seq<char>;

/// Calls `String::from_utf8_lossy`. Claimed: the result is `lossy_text` of the
/// bytes, and for valid UTF-8 it is the decoded text (std documents that only
/// invalid sequences are replaced). What replaces invalid sequences is left
/// to the name.
#[verifier::external_body]
fn utf8_lossy(bytes: &[u8]) -> (text: String)
    ensures
        text@ == lossy_text(bytes@),
        valid_utf8(bytes@) ==> text@ == decode_utf8(bytes@),
{
    String::from_utf8_lossy(bytes).into_owned()
}

/// The body shown as text; invalid UTF-8 sequences are replaced.
pub fn response_text(bytes: &[u8]) -> (text: String)
    ensures
        text@ == lossy_text(bytes@),
        valid_utf8(bytes@) ==> text@ == decode_utf8(bytes@),
{
    utf8_lossy(bytes)
}

/// The lower-case hexadecimal digit for `d` (`d < 16`), as an ASCII code.
pub open spec fn hex_digit(d: u8) -> u8 {
    if d < 10 {
        (48 + d) as u8
    } else {
        (87 + d) as u8
    }
}

/// How one byte is written inside a byte-string literal: `\n`, `\r`, `\t`,
/// `\\`, `\"` and `\0` for those bytes, printable ASCII as itself, and
/// `\xHH` (lower-case hex) for anything else.
pub open spec fn byte_escape(b: u8) -> Seq<u8> {
    if b == 10 {
        seq![92u8, 110u8]
    } else if b == 13 {
        seq![92u8, 114u8]
    } else if b == 9 {
        seq![92u8, 116u8]
    } else if b == 92 || b == 34 {
        seq![92u8, b]
    } else if b == 0 {
        seq![92u8, 48u8]
    } else if 32 <= b < 127 {
        seq![b]
    } else {
        seq![92u8, 120u8, hex_digit(b / 16), hex_digit(b % 16)]
    }
}

/// The escaped form of a run of bytes.
pub open spec fn escaped(bytes: Seq<u8>) -> Seq<u8>
    decreases bytes.len(),
{
    if bytes.len() == 0 {
        Seq::empty()
    } else {
        escaped(bytes.drop_last()) + byte_escape(bytes.last())
    }
}

/// A byte-string literal for `bytes`: `b"`, the escaped bytes, and `"`; the
/// form in which `bytes::Bytes` shows itself with `{:?}`.
pub open spec fn byte_string_literal(bytes: Seq<u8>) -> Seq<u8> {
    seq![98u8, 34u8] + escaped(bytes) + seq![34u8]
}

/// The escaped form of a run of bytes is the escaped forms of its bytes, one
/// after another.
pub proof fn lemma_escaped_concat(a: Seq<u8>, b: Seq<u8>)
    ensures
        escaped(a + b) == escaped(a) + escaped(b),
    decreases b.len(),
{
    if b.len() == 0 {
        assert(a + b =~= a);
        assert(escaped(b) == Seq::<u8>::empty());
        assert(escaped(a) + escaped(b) =~= escaped(a));
    } else {
        lemma_escaped_concat(a, b.drop_last());
        assert((a + b).drop_last() =~= a + b.drop_last());
        assert((a + b).last() == b.last());
        assert(escaped(a) + escaped(b) =~= escaped(a) + escaped(b.drop_last()) + byte_escape(b.last()));
    }
}

/// How each byte is written: printable ASCII other than `\\` and `"` stands
/// for itself; line feed, carriage return, tab and zero are `\\n`, `\\r`,
/// `\\t` and `\\0`; backslash and quote get a backslash before them; every
/// other byte is `\\x` and two lower-case hex digits.
pub proof fn lemma_byte_escapes(b: u8)
    ensures
        32 <= b < 127 && b != 92 && b != 34 ==> byte_escape(b) == seq![b],
        b == 10 ==> byte_escape(b) == seq![92u8, 110u8],
        b == 13 ==> byte_escape(b) == seq![92u8, 114u8],
        b == 9 ==> byte_escape(b) == seq![92u8, 116u8],
        b == 0 ==> byte_escape(b) == seq![92u8, 48u8],
        b == 92 || b == 34 ==> byte_escape(b) == seq![92u8, b],
        (b < 32 && b != 0 && b != 9 && b != 10 && b != 13) || b >= 127 ==> byte_escape(b) == seq![
            92u8,
            120u8,
            (if b / 16 < 10 { 48 + b / 16 } else { 87 + b / 16 }) as u8,
            (if b % 16 < 10 { 48 + b % 16 } else { 87 + b % 16 }) as u8,
        ],
{
}

/// Appends the escaped form of `b`.
fn push_escaped(out: &mut Vec<u8>, b: u8)
    ensures
        final(out)@ == old(out)@ + byte_escape(b),
{
    if b == 10 {
        out.push(92);
        out.push(110);
    } else if b == 13 {
        out.push(92);
        out.push(114);
    } else if b == 9 {
        out.push(92);
        out.push(116);
    } else if b == 92 || b == 34 {
        out.push(92);
        out.push(b);
    } else if b == 0 {
        out.push(92);
        out.push(48);
    } else if 32 <= b && b < 127 {
        out.push(b);
    } else {
        out.push(92);
        out.push(120);
        let hi = b / 16;
        let lo = b % 16;
        out.push(if hi < 10 { 48 + hi } else { 87 + hi });
        out.push(if lo < 10 { 48 + lo } else { 87 + lo });
    }
    assert(final(out)@ =~= old(out)@ + byte_escape(b));
}

proof fn lemma_escape_is_ascii(b: u8)
    ensures
        all_ascii(byte_escape(b)),
{
}

/// The body written as a byte-string literal, `b"..."`, as `Bytes` prints
/// with `{:?}`: newlines, quotes and other special bytes escaped.
pub fn byte_string(bytes: &[u8]) -> (text: String)
    ensures
        text@ == ascii_text(byte_string_literal(bytes@)),
        text@ == ascii_text(seq![98u8, 34u8] + escaped(bytes@) + seq![34u8]),
{
    let mut out: Vec<u8> = Vec::new();
    out.push(98);
    out.push(34);
    let mut i: usize = 0;
    while i < bytes.len()
        invariant
            0 <= i <= bytes@.len(),
            out@ == seq![98u8, 34u8] + escaped(bytes@.take(i as int)),
            all_ascii(out@),
        decreases bytes@.len() - i,
    {
        let ghost before = out@;
        push_escaped(&mut out, bytes[i]);
        proof {
            lemma_escape_is_ascii(bytes@[i as int]);
            assert(bytes@.take(i + 1).drop_last() =~= bytes@.take(i as int));
            assert(out@ =~= seq![98u8, 34u8] + escaped(bytes@.take(i + 1)));
            assert forall|k: int| 0 <= k < out@.len() implies #[trigger] out@[k] < 128 by {
                if k >= before.len() {
                    assert(out@[k] == byte_escape(bytes@[i as int])[k - before.len()]);
                } else {
                    assert(out@[k] == before[k]);
                }
            }
        }
        i = i + 1;
    }
    out.push(34);
    assert(bytes@.take(bytes@.len() as int) =~= bytes@);
    assert(out@ =~= byte_string_literal(bytes@));
    ascii_string(&out)
}

} // verus!
