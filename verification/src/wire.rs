//! The bytes that a frame is written as, and the proof that reading them
//! gives the frame back.
use crate::frame::{
    frame_at, frames_at, lemma_first_terminator, line_at, number_at, terminator_at, FrameView,
    ARRAY_MARK, BULK_MARK, CR, ERROR_MARK, INTEGER_MARK, LF, NULL_MARK, SIMPLE_MARK,
};
use crate::number::{be_bytes, lemma_be_bytes_len, lemma_be_round_trip, lemma_radix_pow_values};
use vstd::prelude::*;
use vstd::utf8::{encode_utf8, encode_utf8_decode_utf8, encode_utf8_valid_utf8};

verus! {

/// The two bytes that end a line.
pub open spec fn terminator() -> Seq<u8> {
    seq![CR, LF]
}

/// A line terminator starts somewhere in `bytes`.
pub open spec fn has_terminator(bytes: Seq<u8>) -> bool {
    exists|i: int| terminator_at(bytes, i)
}

/// A kind byte, a body and the terminator.
pub open spec fn marked_line(mark: u8, body: Seq<u8>) -> Seq<u8> {
    seq![mark] + body + terminator()
}

/// The bytes that `frame` is written as.
pub open spec fn wire_bytes(frame: FrameView) -> Seq<u8>
    decreases frame,
{
    match frame {
        FrameView::Simple(text) => marked_line(SIMPLE_MARK, encode_utf8(text)),
        FrameView::Error(text) => marked_line(ERROR_MARK, encode_utf8(text)),
        FrameView::Integer(value) => marked_line(INTEGER_MARK, be_bytes(value as nat, 8)),
        FrameView::Bulk(payload) => marked_line(BULK_MARK, be_bytes(payload.len(), 8)) + payload
            + terminator(),
        FrameView::Null => marked_line(NULL_MARK, Seq::empty()),
        FrameView::Array(items) => marked_line(ARRAY_MARK, be_bytes(items.len(), 8)) + wire_all(
            items,
        ),
    }
}

/// The bytes of several frames written one after the other.
pub open spec fn wire_all(frames: Seq<FrameView>) -> Seq<u8>
    decreases frames,
{
    if frames.len() == 0 {
        Seq::empty()
    } else {
        wire_bytes(frames.first()) + wire_all(frames.drop_first())
    }
}

/// The frames that are read back as they were written: text is not empty,
/// no line holds a terminator inside it, and lengths fit in 64 bits.
pub open spec fn encodable(frame: FrameView) -> bool
    decreases frame,
{
    match frame {
        FrameView::Simple(text) => text.len() > 0 && !has_terminator(encode_utf8(text)),
        FrameView::Error(text) => text.len() > 0 && !has_terminator(encode_utf8(text)),
        FrameView::Integer(value) => !has_terminator(be_bytes(value as nat, 8)),
        FrameView::Bulk(payload) => payload.len() <= u64::MAX && !has_terminator(
            be_bytes(payload.len(), 8),
        ),
        FrameView::Null => true,
        FrameView::Array(items) => items.len() <= u64::MAX && !has_terminator(
            be_bytes(items.len(), 8),
        ) && forall|i: int| 0 <= i < items.len() ==> encodable(#[trigger] items[i]),
    }
}

/// `part` stands in `bytes` from index `pos` on.
pub open spec fn stands_at(bytes: Seq<u8>, pos: nat, part: Seq<u8>) -> bool {
    pos + part.len() <= bytes.len() && bytes.subrange(pos as int, (pos + part.len()) as int) == part
}

proof fn lemma_stands_split(bytes: Seq<u8>, pos: nat, a: Seq<u8>, b: Seq<u8>)
    requires
        stands_at(bytes, pos, a + b),
    ensures
        stands_at(bytes, pos, a),
        stands_at(bytes, pos + a.len(), b),
{
    let whole = bytes.subrange(pos as int, (pos + (a + b).len()) as int);
    assert forall|i: int| 0 <= i < a.len() implies bytes[pos + i] == a[i] by {
        assert(whole[i] == (a + b)[i]);
    }
    assert forall|i: int| 0 <= i < b.len() implies bytes[pos + a.len() + i] == b[i] by {
        assert(whole[a.len() + i] == (a + b)[a.len() + i]);
    }
    assert(bytes.subrange(pos as int, (pos + a.len()) as int) =~= a);
    assert(bytes.subrange((pos + a.len()) as int, (pos + a.len() + b.len()) as int) =~= b);
}

/// A body without a terminator inside it, followed by one, is read as a line.
proof fn lemma_line_found(bytes: Seq<u8>, pos: nat, body: Seq<u8>)
    requires
        stands_at(bytes, pos, body + terminator()),
        !has_terminator(body),
    ensures
        line_at(bytes, pos) == Some((body, body.len() + 2)),
{
    let end = pos + body.len();
    lemma_stands_split(bytes, pos, body, terminator());
    let tail = bytes.subrange(end as int, (end + 2) as int);
    assert(tail[0] == CR && tail[1] == LF);
    assert(terminator_at(bytes, end as int));
    let head = bytes.subrange(pos as int, end as int);
    assert forall|j: int| pos <= j < end implies !terminator_at(bytes, j) by {
        if j + 1 < end {
            assert(head[j - pos] == bytes[j] && head[j - pos + 1] == bytes[j + 1]);
            assert(!terminator_at(body, j - pos));
        } else {
            assert(bytes[j + 1] == tail[0]);
        }
    }
    lemma_first_terminator(bytes, pos as int, end as int);
}

/// A number of eight bytes without a terminator inside it is read as it was written.
proof fn lemma_number_found(bytes: Seq<u8>, pos: nat, value: u64)
    requires
        stands_at(bytes, pos, be_bytes(value as nat, 8) + terminator()),
        !has_terminator(be_bytes(value as nat, 8)),
    ensures
        number_at(bytes, pos) == (Ok::<u64, crate::frame::FrameError>(value), 10nat),
{
    lemma_line_found(bytes, pos, be_bytes(value as nat, 8));
    lemma_be_bytes_len(value as nat, 8);
    lemma_radix_pow_values();
    lemma_be_round_trip(value as nat, 8);
}

/// The text of a frame that can be written is read back from its encoding.
proof fn lemma_text_found(text: Seq<char>)
    requires
        text.len() > 0,
    ensures
        crate::frame::text_of(encode_utf8(text)) == Ok::<Seq<char>, crate::frame::FrameError>(
            text,
        ),
{
    encode_utf8_valid_utf8(text);
    encode_utf8_decode_utf8(text);
    assert(encode_utf8(text).len() > 0) by {
        assert(vstd::utf8::encode_scalar(text[0] as u32).len() > 0);
    }
}

/// Where the bytes of a frame that can be written stand in a buffer, reading
/// at that place gives the frame and uses up exactly those bytes.
pub proof fn lemma_frame_read_back(frame: FrameView, bytes: Seq<u8>, pos: nat)
    requires
        encodable(frame),
        stands_at(bytes, pos, wire_bytes(frame)),
    ensures
        frame_at(bytes, pos) == (
            Ok::<FrameView, crate::frame::FrameError>(frame),
            wire_bytes(frame).len(),
        ),
    decreases frame,
{
    match frame {
        FrameView::Simple(text) => {
            let body = encode_utf8(text);
            assert(wire_bytes(frame) =~= seq![SIMPLE_MARK] + (body + terminator()));
            lemma_stands_split(bytes, pos, seq![SIMPLE_MARK], body + terminator());
            assert(bytes[pos as int] == bytes.subrange(pos as int, (pos + 1) as int)[0]);
            lemma_line_found(bytes, pos + 1, body);
            lemma_text_found(text);
        },
        FrameView::Error(text) => {
            let body = encode_utf8(text);
            assert(wire_bytes(frame) =~= seq![ERROR_MARK] + (body + terminator()));
            lemma_stands_split(bytes, pos, seq![ERROR_MARK], body + terminator());
            assert(bytes[pos as int] == bytes.subrange(pos as int, (pos + 1) as int)[0]);
            lemma_line_found(bytes, pos + 1, body);
            lemma_text_found(text);
        },
        FrameView::Integer(value) => {
            let body = be_bytes(value as nat, 8);
            assert(wire_bytes(frame) =~= seq![INTEGER_MARK] + (body + terminator()));
            lemma_stands_split(bytes, pos, seq![INTEGER_MARK], body + terminator());
            assert(bytes[pos as int] == bytes.subrange(pos as int, (pos + 1) as int)[0]);
            lemma_number_found(bytes, pos + 1, value);
            lemma_be_bytes_len(value as nat, 8);
        },
        FrameView::Bulk(payload) => {
            let len = payload.len() as u64;
            let body = be_bytes(payload.len(), 8);
            lemma_be_bytes_len(payload.len(), 8);
            assert(wire_bytes(frame) =~= seq![BULK_MARK] + ((body + terminator()) + (payload
                + terminator())));
            lemma_stands_split(
                bytes,
                pos,
                seq![BULK_MARK],
                (body + terminator()) + (payload + terminator()),
            );
            assert(bytes[pos as int] == bytes.subrange(pos as int, (pos + 1) as int)[0]);
            lemma_stands_split(bytes, pos + 1, body + terminator(), payload + terminator());
            lemma_number_found(bytes, pos + 1, len);
            let start = pos + 11;
            lemma_stands_split(bytes, start, payload, terminator());
            let tail = bytes.subrange((start + payload.len()) as int, (start + payload.len() + 2) as int);
            assert(tail[0] == CR && tail[1] == LF);
            assert(terminator_at(bytes, (start + len) as int));
        },
        FrameView::Null => {
            let body = Seq::<u8>::empty();
            assert(wire_bytes(frame) =~= seq![NULL_MARK] + (body + terminator()));
            lemma_stands_split(bytes, pos, seq![NULL_MARK], body + terminator());
            assert(bytes[pos as int] == bytes.subrange(pos as int, (pos + 1) as int)[0]);
            assert(!has_terminator(body));
            lemma_line_found(bytes, pos + 1, body);
        },
        FrameView::Array(items) => {
            let count = items.len() as u64;
            let body = be_bytes(items.len(), 8);
            lemma_be_bytes_len(items.len(), 8);
            assert(wire_bytes(frame) =~= seq![ARRAY_MARK] + ((body + terminator()) + wire_all(
                items,
            )));
            lemma_stands_split(
                bytes,
                pos,
                seq![ARRAY_MARK],
                (body + terminator()) + wire_all(items),
            );
            assert(bytes[pos as int] == bytes.subrange(pos as int, (pos + 1) as int)[0]);
            lemma_stands_split(bytes, pos + 1, body + terminator(), wire_all(items));
            lemma_number_found(bytes, pos + 1, count);
            lemma_frames_read_back(items, bytes, pos + 11);
        },
    }
}

/// The same for several frames written one after the other.
pub proof fn lemma_frames_read_back(frames: Seq<FrameView>, bytes: Seq<u8>, pos: nat)
    requires
        forall|i: int| 0 <= i < frames.len() ==> encodable(#[trigger] frames[i]),
        stands_at(bytes, pos, wire_all(frames)),
    ensures
        frames_at(bytes, pos, frames.len()) == (
            Ok::<Seq<FrameView>, crate::frame::FrameError>(frames),
            wire_all(frames).len(),
        ),
    decreases frames,
{
    if frames.len() == 0 {
        assert(frames =~= Seq::<FrameView>::empty());
    } else {
        let first = frames.first();
        let rest = frames.drop_first();
        lemma_stands_split(bytes, pos, wire_bytes(first), wire_all(rest));
        lemma_frame_read_back(first, bytes, pos);
        assert forall|i: int| 0 <= i < rest.len() implies encodable(#[trigger] rest[i]) by {
            assert(rest[i] == frames[i + 1]);
        }
        lemma_frames_read_back(rest, bytes, pos + wire_bytes(first).len());
        assert(seq![first] + rest =~= frames);
    }
}

/// Reading what was written gives the frame back: for every frame that can be
/// written, the bytes it is written as are read as that frame, and all of them
/// are used.
pub proof fn parse_inverts_write(frame: FrameView)
    requires
        encodable(frame),
    ensures
        frame_at(wire_bytes(frame), 0) == (
            Ok::<FrameView, crate::frame::FrameError>(frame),
            wire_bytes(frame).len(),
        ),
{
    let bytes = wire_bytes(frame);
    assert(bytes.subrange(0, bytes.len() as int) =~= bytes);
    lemma_frame_read_back(frame, bytes, 0);
}

} // verus!
