//! The framing of a multipart MJPEG stream.
//!
//! A part is `[separator]--boundary\r\n<headers>\r\n\r\n<body>`, and the muxer states the length of
//! the body in the headers of every part. Whatever precedes the header block belongs to the part, so
//! that a reader that misses one part still receives the next with its own separator and boundary.

use crate::encoding::utf8_text;
use crate::text;
use crate::text::{chars_of, find_char, parse_number, same_chars_but_for_case, trim};
use vstd::prelude::*;
use vstd::slice::slice_subrange;

verus! {

/// Whether a blank line (`\r\n\r\n`) stands at index `i`.
pub open spec fn blank_line_at(buf: Seq<u8>, i: int) -> bool {
    &&& 0 <= i
    &&& i + 4 <= buf.len()
    &&& buf[i] == 13
    &&& buf[i + 1] == 10
    &&& buf[i + 2] == 13
    &&& buf[i + 3] == 10
}

/// How many bytes go up to and with the first blank line, where there is one.
pub open spec fn head_length(buf: Seq<u8>) -> Option<nat>
    decreases buf.len(),
{
    if buf.len() < 4 {
        None
    } else if blank_line_at(buf, 0) {
        Some(4)
    } else {
        match head_length(buf.drop_first()) {
            Some(n) => Some(n + 1),
            None => None,
        }
    }
}

/// The value of a header line that states the length of the body.
pub open spec fn length_header(line: Seq<char>) -> Option<Seq<char>> {
    match text::cut_at(line, ':') {
        Some((name, value)) => if text::same_but_for_case(
            text::trimmed(name),
            "content-length"@,
        ) {
            Some(text::trimmed(value))
        } else {
            None
        },
        None => None,
    }
}

/// The body length that the first such header line states, where it states a number.
pub open spec fn stated_length(lines: Seq<Seq<char>>) -> Option<nat>
    decreases lines.len(),
{
    if lines.len() == 0 {
        None
    } else {
        match length_header(lines[0]) {
            Some(value) => text::number_value(value),
            None => stated_length(lines.drop_first()),
        }
    }
}

/// The length of the complete part at the front of `buf`, where it has arrived whole.
pub open spec fn part_length(buf: Seq<u8>) -> Option<nat> {
    match head_length(buf) {
        None => None,
        Some(head) => {
            let bytes = buf.take(head as int);
            if !vstd::utf8::valid_utf8(bytes) {
                None
            } else {
                match stated_length(text::lines(vstd::utf8::decode_utf8(bytes))) {
                    None => None,
                    Some(body) => if head + body <= buf.len() {
                        Some(head + body)
                    } else {
                        None
                    },
                }
            }
        },
    }
}

/// The complete parts at the front of `buf`, in order.
pub open spec fn parts(buf: Seq<u8>) -> Seq<Seq<u8>>
    decreases buf.len(),
{
    match part_length(buf) {
        Some(n) => {
            proof {
                lemma_part_length_bounds(buf);
            }
            seq![buf.take(n as int)] + parts(buf.skip(n as int))
        },
        None => seq![],
    }
}

/// What is left of `buf` behind its complete parts.
pub open spec fn remainder(buf: Seq<u8>) -> Seq<u8>
    decreases buf.len(),
{
    match part_length(buf) {
        Some(n) => {
            proof {
                lemma_part_length_bounds(buf);
            }
            remainder(buf.skip(n as int))
        },
        None => buf,
    }
}

/// The contents of the byte vectors.
pub open spec fn contents(list: Seq<Vec<u8>>) -> Seq<Seq<u8>> {
    list.map_values(|bytes: Vec<u8>| bytes@)
}

pub proof fn lemma_head_length_bounds(buf: Seq<u8>)
    ensures
        head_length(buf) is Some ==> {
            let end = head_length(buf)->0;
            &&& 4 <= end <= buf.len()
            &&& blank_line_at(buf, end - 4)
            &&& forall|j: int| 0 <= j < end - 4 ==> !#[trigger] blank_line_at(buf, j)
        },
    decreases buf.len(),
{
    if buf.len() >= 4 && !blank_line_at(buf, 0) {
        let t = buf.drop_first();
        lemma_head_length_bounds(t);
        if head_length(t) is Some {
            let end = head_length(t)->0;
            assert(blank_line_at(t, end - 4));
            assert forall|j: int| 0 <= j < end - 3 implies !#[trigger] blank_line_at(buf, j) by {
                if j > 0 {
                    assert(!blank_line_at(t, j - 1));
                }
            }
        }
    }
}

/// A part is never empty and never longer than the bytes that it stands in.
pub proof fn lemma_part_length_bounds(buf: Seq<u8>)
    ensures
        part_length(buf) is Some ==> 4 <= part_length(buf)->0 <= buf.len(),
{
    lemma_head_length_bounds(buf);
}

pub proof fn lemma_head_length(buf: Seq<u8>, i: int)
    requires
        blank_line_at(buf, i),
        forall|j: int| 0 <= j < i ==> !#[trigger] blank_line_at(buf, j),
    ensures
        head_length(buf) == Some((i + 4) as nat),
    decreases buf.len(),
{
    if i > 0 {
        let t = buf.drop_first();
        assert(!blank_line_at(buf, 0));
        assert forall|j: int| 0 <= j < i - 1 implies !#[trigger] blank_line_at(t, j) by {
            assert(!blank_line_at(buf, j + 1));
        }
        lemma_head_length(t, i - 1);
    }
}

pub proof fn lemma_head_length_none(buf: Seq<u8>)
    requires
        forall|j: int| !#[trigger] blank_line_at(buf, j),
    ensures
        head_length(buf) is None,
    decreases buf.len(),
{
    if buf.len() >= 4 {
        let t = buf.drop_first();
        assert(!blank_line_at(buf, 0));
        assert forall|j: int| !#[trigger] blank_line_at(t, j) by {
            if blank_line_at(t, j) {
                assert(blank_line_at(buf, j + 1));
            }
        }
        lemma_head_length_none(t);
    }
}

/// How many bytes go up to and with the first blank line.
fn find_head(buf: &[u8]) -> (r: Option<usize>)
    ensures
        r is Some <==> head_length(buf@) is Some,
        r is Some ==> head_length(buf@) == Some(r->0 as nat) && r->0 <= buf@.len(),
{
    if buf.len() < 4 {
        return None;
    }
    let end: usize = buf.len() - 3;
    let mut i: usize = 0;
    while i < end
        invariant
            end == buf@.len() - 3,
            i <= end,
            forall|j: int| 0 <= j < i ==> !#[trigger] blank_line_at(buf@, j),
        decreases end - i,
    {
        if buf[i] == 13 && buf[i + 1] == 10 && buf[i + 2] == 13 && buf[i + 3] == 10 {
            proof {
                assert(blank_line_at(buf@, i as int));
                lemma_head_length(buf@, i as int);
            }
            return Some(i + 4);
        }
        i = i + 1;
    }
    proof {
        assert forall|j: int| !#[trigger] blank_line_at(buf@, j) by {}
        lemma_head_length_none(buf@);
    }
    None
}

/// The body length that a header block states, where a `usize` can hold it.
fn read_stated_length(head: &[char]) -> (r: Option<usize>)
    ensures
        ({
            let stated = stated_length(text::lines(head@));
            &&& r is Some <==> stated is Some && stated->0 <= usize::MAX
            &&& r is Some ==> r->0 == stated->0
        }),
{
    let name: Vec<char> = chars_of("content-length");
    let mut rest: &[char] = head;
    while rest.len() > 0
        invariant
            name@ == "content-length"@,
            stated_length(text::lines(rest@)) == stated_length(text::lines(head@)),
        decreases rest@.len(),
    {
        let end: usize = find_char(rest, '\n');
        let ended: bool = end < rest.len();
        let stop: usize = if ended && end > 0 && rest[end - 1] == '\r' {
            end - 1
        } else {
            end
        };
        let line: &[char] = slice_subrange(rest, 0, stop);
        let tail: &[char] = if ended {
            slice_subrange(rest, end + 1, rest.len())
        } else {
            slice_subrange(rest, end, rest.len())
        };
        proof {
            let all = text::lines(rest@);
            if ended {
                assert(line@ =~= text::without_cr(rest@.take(end as int)));
                assert(all == seq![line@] + text::lines(tail@));
            } else {
                assert(line@ =~= rest@);
                assert(all == seq![line@]);
                assert(text::lines(tail@) =~= Seq::<Seq<char>>::empty());
            }
            assert(all[0] == line@);
            assert(all.drop_first() =~= text::lines(tail@));
        }
        let colon: usize = find_char(line, ':');
        if colon < line.len() {
            if same_chars_but_for_case(trim(slice_subrange(line, 0, colon)), name.as_slice()) {
                return parse_number(trim(slice_subrange(line, colon + 1, line.len())));
            }
        }
        rest = tail;
    }
    None
}

/// The length of the complete multipart part at the front of `buf`, or nothing while it is still
/// arriving.
pub fn frame_len(buf: &[u8]) -> (r: Option<usize>)
    ensures
        r is Some <==> part_length(buf@) is Some,
        r is Some ==> part_length(buf@) == Some(r->0 as nat),
{
    let all: usize = buf.len();
    let head: usize = match find_head(buf) {
        Some(head) => head,
        None => {
            return None;
        },
    };
    let chars: Vec<char> = match utf8_text(slice_subrange(buf, 0, head)) {
        Some(head_text) => chars_of(head_text),
        None => {
            return None;
        },
    };
    let body: usize = match read_stated_length(chars.as_slice()) {
        Some(body) => body,
        None => {
            return None;
        },
    };
    if body <= all - head {
        Some(head + body)
    } else {
        None
    }
}

/// The complete parts at the front of `buf`, in order, and how many bytes they take up together.
pub fn cut_parts(buf: &[u8]) -> (r: (Vec<Vec<u8>>, usize))
    ensures
        contents(r.0@) == parts(buf@),
        r.1 <= buf@.len(),
        buf@.skip(r.1 as int) == remainder(buf@),
        r.0@.len() == 0 <==> r.1 == 0,
{
    let all: usize = buf.len();
    let mut list: Vec<Vec<u8>> = Vec::new();
    let mut cut: usize = 0;
    proof {
        assert(buf@.skip(0) =~= buf@);
        assert(contents(list@) + parts(buf@) =~= parts(buf@));
    }
    let mut next: Option<usize> = frame_len(buf);
    while next.is_some()
        invariant
            all == buf@.len(),
            cut <= all,
            contents(list@) + parts(buf@.skip(cut as int)) == parts(buf@),
            remainder(buf@.skip(cut as int)) == remainder(buf@),
            list@.len() == 0 <==> cut == 0,
            next is Some <==> part_length(buf@.skip(cut as int)) is Some,
            next is Some ==> part_length(buf@.skip(cut as int)) == Some(next->0 as nat),
        decreases buf@.len() - cut,
    {
        let len: usize = next.unwrap();
        let ghost rest = buf@.skip(cut as int);
        let ghost before = list@;
        proof {
            lemma_part_length_bounds(rest);
            assert(rest.skip(len as int) =~= buf@.skip(cut + len));
        }
        let mut part: Vec<u8> = Vec::new();
        part.extend_from_slice(slice_subrange(buf, cut, cut + len));
        list.push(part);
        proof {
            assert(part@ =~= rest.take(len as int));
            assert(contents(list@) =~= contents(before).push(part@));
            assert(contents(list@) + parts(buf@.skip(cut + len)) =~= contents(before) + (seq![part@]
                + parts(buf@.skip(cut + len))));
        }
        cut = cut + len;
        next = frame_len(slice_subrange(buf, cut, all));
        proof {
            assert(buf@.subrange(cut as int, buf@.len() as int) =~= buf@.skip(cut as int));
        }
    }
    proof {
        assert(contents(list@) + parts(buf@.skip(cut as int)) =~= contents(list@));
    }
    (list, cut)
}

/// Cutting loses nothing and changes nothing: the parts, one after the other, and what is left
/// behind them are the bytes that were cut; and what is left holds no complete part.
pub proof fn law_parts_cover_the_stream(buf: Seq<u8>)
    ensures
        parts(buf).flatten() + remainder(buf) == buf,
        part_length(remainder(buf)) is None,
    decreases buf.len(),
{
    match part_length(buf) {
        Some(n) => {
            lemma_part_length_bounds(buf);
            let rest = buf.skip(n as int);
            law_parts_cover_the_stream(rest);
            let all = parts(buf);
            assert(all.drop_first() =~= parts(rest));
            assert(all.flatten() == all[0] + parts(rest).flatten());
            assert(parts(buf).flatten() + remainder(buf) =~= buf.take(n as int) + (
            parts(rest).flatten() + remainder(rest)));
            assert(buf.take(n as int) + rest =~= buf);
        },
        None => {
            assert(parts(buf).flatten() + remainder(buf) =~= buf);
        },
    }
}

/// A part that is complete stays the same part however much arrives behind it.
pub proof fn law_complete_part_is_final(buf: Seq<u8>, more: Seq<u8>)
    requires
        part_length(buf) is Some,
    ensures
        part_length(buf + more) == part_length(buf),
{
    lemma_head_length_bounds(buf);
    let head = head_length(buf)->0;
    let all = buf + more;
    assert(blank_line_at(all, head - 4));
    assert forall|j: int| 0 <= j < head - 4 implies !#[trigger] blank_line_at(all, j) by {
        assert(!blank_line_at(buf, j));
    }
    lemma_head_length(all, head - 4);
    assert(all.take(head as int) =~= buf.take(head as int));
}

/// An incomplete part waits: nothing is claimed of a part before its last byte is there.
pub proof fn law_incomplete_part_waits(buf: Seq<u8>, arrived: int)
    requires
        part_length(buf) is Some,
        0 <= arrived < part_length(buf)->0,
    ensures
        part_length(buf.take(arrived)) is None,
{
    lemma_part_length_bounds(buf);
    let begun = buf.take(arrived);
    if part_length(begun) is Some {
        lemma_part_length_bounds(begun);
        law_complete_part_is_final(begun, buf.skip(arrived));
        assert(begun + buf.skip(arrived) =~= buf);
    }
}

/// Where the reads of a stream happen to end does not matter: cutting what came first, and then
/// what was left of it together with what came next, gives the parts and the remainder of the whole.
pub proof fn law_parts_do_not_depend_on_reads(first: Seq<u8>, next: Seq<u8>)
    ensures
        parts(first + next) == parts(first) + parts(remainder(first) + next),
        remainder(first + next) == remainder(remainder(first) + next),
    decreases first.len(),
{
    match part_length(first) {
        Some(n) => {
            lemma_part_length_bounds(first);
            law_complete_part_is_final(first, next);
            let rest = first.skip(n as int);
            law_parts_do_not_depend_on_reads(rest, next);
            assert((first + next).skip(n as int) =~= rest + next);
            assert((first + next).take(n as int) =~= first.take(n as int));
            assert(parts(first + next) =~= parts(first) + parts(remainder(first) + next));
        },
        None => {
            assert(parts(first + next) =~= parts(first) + parts(remainder(first) + next));
        },
    }
}

/// A head goes up to the first place where a carriage return, a line feed, a carriage return and a line feed
/// stand one behind the other, and with them. Where they stand nowhere, no head has arrived.
pub proof fn law_head_ends_at_the_first_blank_line(buf: Seq<u8>, n: int)
    ensures
        head_length(buf) == Some(n as nat) && n >= 0 <==> {
            &&& 4 <= n <= buf.len()
            &&& buf.subrange(n - 4, n) == seq![13u8, 10, 13, 10]
            &&& forall|m: int|
                4 <= m < n ==> #[trigger] buf.subrange(m - 4, m) != seq![13u8, 10, 13, 10]
        },
        head_length(buf) is None <==> (forall|m: int|
            4 <= m <= buf.len() ==> #[trigger] buf.subrange(m - 4, m) != seq![13u8, 10, 13, 10]),
{
    let blank = seq![13u8, 10, 13, 10];
    assert forall|m: int| 4 <= m <= buf.len() implies (#[trigger] buf.subrange(m - 4, m) == blank
        <==> blank_line_at(buf, m - 4)) by {
        let four = buf.subrange(m - 4, m);
        assert(four[0] == buf[m - 4] && four[1] == buf[m - 3] && four[2] == buf[m - 2] && four[3]
            == buf[m - 1]);
        if blank_line_at(buf, m - 4) {
            assert(four =~= blank);
        }
    }
    lemma_head_length_bounds(buf);
    if head_length(buf) is Some {
        let end = head_length(buf)->0 as int;
        assert(buf.subrange(end - 4, end) == blank);
        assert forall|m: int| 4 <= m < end implies #[trigger] buf.subrange(m - 4, m) != blank by {
            assert(!blank_line_at(buf, m - 4));
        }
        if 4 <= n < end {
            assert(buf.subrange(n - 4, n) != blank);
        }
    } else if exists|m: int| 4 <= m <= buf.len() && #[trigger] buf.subrange(m - 4, m) == blank {
        let m = choose|m: int| 4 <= m <= buf.len() && #[trigger] buf.subrange(m - 4, m) == blank;
        lemma_blank_line_is_found(buf, m - 4);
    } else if 4 <= n <= buf.len() {
        assert(buf.subrange(n - 4, n) != blank);
    }
}

proof fn lemma_blank_line_is_found(buf: Seq<u8>, i: int)
    requires
        blank_line_at(buf, i),
    ensures
        head_length(buf) is Some,
    decreases buf.len(),
{
    if !blank_line_at(buf, 0) {
        assert(blank_line_at(buf.drop_first(), i - 1));
        lemma_blank_line_is_found(buf.drop_first(), i - 1);
    }
}

/// A part is its head and as many bytes as the head states, once they have all arrived. A head that is not
/// text makes no part, nor does one that states no length, nor one with bytes still to come.
pub proof fn law_part_is_as_long_as_stated(head: Seq<u8>, rest: Seq<u8>, body: nat)
    requires
        head_length(head) == Some(head.len()),
    ensures
        vstd::utf8::valid_utf8(head) && stated_length(text::lines(vstd::utf8::decode_utf8(head))) == Some(
            body,
        ) && body <= rest.len() ==> part_length(head + rest) == Some(head.len() + body),
        vstd::utf8::valid_utf8(head) && stated_length(text::lines(vstd::utf8::decode_utf8(head))) == Some(
            body,
        ) && body > rest.len() ==> part_length(head + rest) is None,
        vstd::utf8::valid_utf8(head) && stated_length(text::lines(vstd::utf8::decode_utf8(head))) is None
            ==> part_length(head + rest) is None,
        !vstd::utf8::valid_utf8(head) ==> part_length(head + rest) is None,
{
    let all = head + rest;
    let n = head.len() as int;
    lemma_head_length_bounds(head);
    assert(blank_line_at(all, n - 4));
    assert forall|j: int| 0 <= j < n - 4 implies !#[trigger] blank_line_at(all, j) by {
        assert(!blank_line_at(head, j));
    }
    lemma_head_length(all, n - 4);
    assert(all.take(n) =~= head);
}

/// The bytes of a list of vectors are theirs, one for one.
pub proof fn law_contents_are_kept(list: Seq<Vec<u8>>, i: int)
    requires
        0 <= i < list.len(),
    ensures
        contents(list).len() == list.len(),
        contents(list)[i] == list[i]@,
{
}

} // verus!
