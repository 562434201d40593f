//! What muxers write, ffmpeg's mpjpeg and GStreamer's multipartmux among them, and that it is cut back into
//! the pictures it was made of.

use crate::multipart;
use crate::text;
use vstd::prelude::*;

verus! {

/// The end of a line.
pub open spec fn crlf() -> Seq<char> {
    seq!['\r', '\n']
}

/// The separator, boundary line and header block of one part with a body of `length` bytes. The
/// first part of a stream has no separator.
pub open spec fn muxed_head(first: bool, length: nat) -> Seq<char> {
    let separator = if first {
        Seq::<char>::empty()
    } else {
        crlf()
    };
    separator + ("--ffmpeg"@ + crlf() + ("Content-type: image/jpeg"@ + crlf() + ((
    "Content-length: "@ + text::decimal(length)) + crlf() + crlf())))
}

/// One part: its head and the body.
pub open spec fn muxed_part(first: bool, body: Seq<u8>) -> Seq<u8> {
    vstd::utf8::encode_utf8(muxed_head(first, body.len())) + body
}

/// The parts of a stream of pictures.
pub open spec fn muxed_parts(bodies: Seq<Seq<u8>>) -> Seq<Seq<u8>> {
    Seq::new(bodies.len(), |i: int| muxed_part(i == 0, bodies[i]))
}

/// Whether no character of `s` ends a line.
spec fn on_one_line(s: Seq<char>) -> bool {
    forall|i: int| 0 <= i < s.len() ==> #[trigger] s[i] != '\r' && s[i] != '\n'
}

/// A line and its ending come off the front of a text as its first line.
proof fn lemma_first_line(line: Seq<char>, rest: Seq<char>)
    requires
        on_one_line(line),
    ensures
        text::lines(line + crlf() + rest) == seq![line] + text::lines(rest),
{
    let all = line + crlf() + rest;
    let n = line.len() as int;
    assert(all[n + 1] == '\n');
    assert forall|j: int| 0 <= j < n + 1 implies all[j] != '\n' by {
        if j < n {
            assert(all[j] == line[j]);
        } else {
            assert(all[j] == '\r');
        }
    }
    text::lemma_position(all, '\n', n + 1);
    assert(all.take(n + 1).last() == '\r');
    assert(text::without_cr(all.take(n + 1)) =~= line);
    assert(all.skip(n + 2) =~= rest);
}

/// A blank line is looked for line by line.
proof fn lemma_head_past_line(line: Seq<u8>, rest: Seq<u8>)
    requires
        forall|i: int| 0 <= i < line.len() ==> #[trigger] line[i] != 13,
        rest.len() >= 2,
    ensures
        rest[0] == 13 && rest[1] == 10 ==> multipart::head_length(line + seq![13u8, 10u8] + rest)
            == Some(line.len() + 4),
        rest[0] != 13 && multipart::head_length(rest) is Some ==> multipart::head_length(
            line + seq![13u8, 10u8] + rest,
        ) == Some(line.len() + 2 + multipart::head_length(rest)->0),
{
    let all = line + seq![13u8, 10u8] + rest;
    let n = line.len() as int;
    assert(all[n] == 13 && all[n + 1] == 10);
    assert(forall|j: int| 0 <= j < rest.len() ==> all[n + 2 + j] == rest[j]);
    assert forall|j: int| 0 <= j < n implies !#[trigger] multipart::blank_line_at(all, j) by {
        assert(all[j] == line[j]);
    }
    if rest[0] == 13 && rest[1] == 10 {
        assert(all[n + 2] == 13 && all[n + 3] == 10);
        multipart::lemma_head_length(all, n);
    }
    if rest[0] != 13 && multipart::head_length(rest) is Some {
        multipart::lemma_head_length_bounds(rest);
        let end = multipart::head_length(rest)->0 as int;
        assert(all[n + 2] != 13);
        assert forall|j: int| 0 <= j < n + 2 + end - 4 implies !#[trigger] multipart::blank_line_at(
            all,
            j,
        ) by {
            if j >= n + 2 {
                assert(!multipart::blank_line_at(rest, j - n - 2));
                if multipart::blank_line_at(all, j) {
                    assert(multipart::blank_line_at(rest, j - n - 2));
                }
            }
        }
        assert(multipart::blank_line_at(rest, end - 4));
        assert(multipart::blank_line_at(all, n + 2 + end - 4));
        multipart::lemma_head_length(all, n + 2 + end - 4);
    }
}

/// A header block whose first blank line is its end, and which states the length of the body, makes
/// a part of itself and that body, whatever comes behind it.
pub proof fn law_stated_length_frames_the_part(head: Seq<char>, body: Seq<u8>, rest: Seq<u8>)
    requires
        ({
            let bytes = vstd::utf8::encode_utf8(head);
            multipart::head_length(bytes) == Some(bytes.len())
        }),
        multipart::stated_length(text::lines(head)) == Some(body.len()),
    ensures
        ({
            let bytes = vstd::utf8::encode_utf8(head);
            multipart::part_length(bytes + body + rest) == Some(bytes.len() + body.len())
        }),
{
    let bytes = vstd::utf8::encode_utf8(head);
    let n = bytes.len();
    vstd::utf8::encode_utf8_valid_utf8(head);
    vstd::utf8::encode_utf8_decode_utf8(head);
    multipart::lemma_head_length_bounds(bytes);
    let all = bytes + body + rest;
    assert(multipart::blank_line_at(bytes, n - 4));
    assert(multipart::blank_line_at(all, n - 4));
    assert forall|j: int| 0 <= j < n - 4 implies !#[trigger] multipart::blank_line_at(all, j) by {
        assert(!multipart::blank_line_at(bytes, j));
    }
    multipart::lemma_head_length(all, n - 4);
    assert(all.take(n as int) =~= bytes);
}

/// The encoding of a line, its ending and what follows, all of it ASCII.
proof fn lemma_encoded_line(line: Seq<char>, rest: Seq<char>)
    requires
        vstd::utf8::is_ascii_chars(line),
        vstd::utf8::is_ascii_chars(rest),
        on_one_line(line),
    ensures
        ({
            let all = line + crlf() + rest;
            let bytes = vstd::utf8::encode_utf8(line);
            &&& vstd::utf8::is_ascii_chars(all)
            &&& bytes.len() == line.len()
            &&& vstd::utf8::encode_utf8(rest).len() == rest.len()
            &&& forall|i: int| 0 <= i < bytes.len() ==> #[trigger] bytes[i] != 13
            &&& vstd::utf8::encode_utf8(all) == bytes + seq![13u8, 10u8]
                + vstd::utf8::encode_utf8(rest)
        }),
{
    let all = line + crlf() + rest;
    assert(vstd::utf8::is_ascii_chars(all));
    vstd::utf8::is_ascii_chars_encode_utf8(line);
    vstd::utf8::is_ascii_chars_encode_utf8(rest);
    vstd::utf8::is_ascii_chars_encode_utf8(all);
    let bytes = vstd::utf8::encode_utf8(line);
    assert forall|i: int| 0 <= i < bytes.len() implies #[trigger] bytes[i] != 13 by {
        assert(bytes[i] == line[i] as u8);
        assert(line[i] != '\r');
    }
    let whole = vstd::utf8::encode_utf8(all);
    let joined = bytes + seq![13u8, 10u8] + vstd::utf8::encode_utf8(rest);
    assert forall|i: int| 0 <= i < whole.len() implies whole[i] == joined[i] by {
        assert(whole[i] == all[i] as u8);
        if i < line.len() {
            assert(all[i] == line[i]);
        } else if i < line.len() + 2 {
        } else {
            assert(all[i] == rest[i - line.len() - 2]);
        }
    }
    assert(whole =~= joined);
}

/// What is true of the text that stays the same in every part.
proof fn lemma_fixed_lines()
    ensures
        "--ffmpeg"@.len() == 8,
        "--ffmpeg"@[0] == '-',
        on_one_line("--ffmpeg"@),
        vstd::utf8::is_ascii_chars("--ffmpeg"@),
        multipart::length_header("--ffmpeg"@) is None,
        "Content-type: image/jpeg"@.len() == 24,
        "Content-type: image/jpeg"@[0] == 'C',
        on_one_line("Content-type: image/jpeg"@),
        vstd::utf8::is_ascii_chars("Content-type: image/jpeg"@),
        multipart::length_header("Content-type: image/jpeg"@) is None,
        "Content-length: "@.len() == 16,
        "Content-length: "@[0] == 'C',
        on_one_line("Content-length: "@),
        vstd::utf8::is_ascii_chars("Content-length: "@),
{
    reveal_strlit("--ffmpeg");
    reveal_strlit("Content-type: image/jpeg");
    reveal_strlit("Content-length: ");
    reveal_strlit("content-length");
    let a = "--ffmpeg"@;
    let b = "Content-type: image/jpeg"@;
    text::lemma_position(a, ':', 8);
    text::lemma_position(b, ':', 12);
    let name = b.take(12);
    lemma_trimmed_unchanged(name);
    assert(text::trimmed(name).len() == 12);
}

/// Text with no white space at either end is not changed by trimming.
proof fn lemma_trimmed_unchanged(s: Seq<char>)
    requires
        s.len() > 0,
        !text::is_white_space(s[0]),
        !text::is_white_space(s.last()),
    ensures
        text::trimmed(s) == s,
{
}

/// The header line with the length states it.
proof fn lemma_length_line(length: nat)
    ensures
        ({
            let line = "Content-length: "@ + text::decimal(length);
            &&& on_one_line(line)
            &&& vstd::utf8::is_ascii_chars(line)
            &&& line[0] == 'C'
            &&& multipart::length_header(line) == Some(text::decimal(length))
        }),
{
    lemma_fixed_lines();
    text::law_decimal_reads_back(length);
    reveal_strlit("Content-length: ");
    reveal_strlit("content-length");
    let digits = text::decimal(length);
    let fixed = "Content-length: "@;
    let line = fixed + digits;
    assert forall|i: int| 0 <= i < line.len() implies #[trigger] line[i] != '\r' && line[i]
        != '\n' by {
        if i < 16 {
            assert(line[i] == fixed[i]);
        } else {
            assert(line[i] == digits[i - 16]);
            assert(text::is_digit(digits[i - 16]));
        }
    }
    assert forall|i: int| 0 <= i < line.len() implies '\0' <= #[trigger] line[i] <= '\u{7f}' by {
        if i < 16 {
            assert(line[i] == fixed[i]);
        } else {
            assert(line[i] == digits[i - 16]);
            assert(text::is_digit(digits[i - 16]));
        }
    }
    text::lemma_position(line, ':', 14);
    let name = line.take(14);
    lemma_trimmed_unchanged(name);
    assert(text::same_but_for_case(name, "content-length"@));
    let value = line.skip(15);
    assert(value[0] == ' ');
    assert(value.drop_first() =~= digits);
    assert(text::is_digit(digits[0]));
    assert(text::is_digit(digits.last()));
    lemma_trimmed_unchanged(digits);
    assert(text::trimmed_start(value) == text::trimmed_start(digits));
}

/// The head of a part ends at its first blank line and states the length that it was made for.
proof fn lemma_muxed_head(first: bool, length: nat)
    ensures
        ({
            let head = muxed_head(first, length);
            let bytes = vstd::utf8::encode_utf8(head);
            &&& vstd::utf8::is_ascii_chars(head)
            &&& multipart::head_length(bytes) == Some(bytes.len())
            &&& multipart::stated_length(text::lines(head)) == Some(length)
        }),
{
    lemma_fixed_lines();
    lemma_length_line(length);
    text::law_decimal_reads_back(length);
    let boundary = "--ffmpeg"@;
    let kind = "Content-type: image/jpeg"@;
    let stated = "Content-length: "@ + text::decimal(length);
    let none = Seq::<char>::empty();
    let t3 = stated + crlf() + crlf();
    let t2 = kind + crlf() + t3;
    let t1 = boundary + crlf() + t2;

    // The bytes, from the last line up.
    lemma_encoded_line(none, none);
    assert(none + crlf() + none =~= crlf());
    assert(vstd::utf8::encode_utf8(crlf()) =~= seq![13u8, 10u8]);
    lemma_encoded_line(stated, crlf());
    lemma_head_past_line(vstd::utf8::encode_utf8(stated), vstd::utf8::encode_utf8(crlf()));
    lemma_encoded_line(kind, t3);
    vstd::utf8::is_ascii_chars_encode_utf8(t3);
    assert(t3[0] == 'C');
    assert(vstd::utf8::encode_utf8(t3)[0] == 'C' as u8);
    lemma_head_past_line(vstd::utf8::encode_utf8(kind), vstd::utf8::encode_utf8(t3));
    lemma_encoded_line(boundary, t2);
    vstd::utf8::is_ascii_chars_encode_utf8(t2);
    assert(t2[0] == 'C');
    assert(vstd::utf8::encode_utf8(t2)[0] == 'C' as u8);
    lemma_head_past_line(vstd::utf8::encode_utf8(boundary), vstd::utf8::encode_utf8(t2));
    lemma_encoded_line(none, t1);
    vstd::utf8::is_ascii_chars_encode_utf8(t1);
    assert(t1[0] == '-');
    assert(vstd::utf8::encode_utf8(t1)[0] == '-' as u8);
    lemma_head_past_line(vstd::utf8::encode_utf8(none), vstd::utf8::encode_utf8(t1));

    // The lines, from the last one up.
    lemma_first_line(none, none);
    lemma_first_line(stated, crlf());
    lemma_first_line(kind, t3);
    lemma_first_line(boundary, t2);
    lemma_first_line(none, t1);
    assert(text::cut_at(none, ':') is None);
    let l3 = text::lines(t3);
    let l2 = text::lines(t2);
    let l1 = text::lines(t1);
    assert(l3[0] == stated);
    assert(multipart::stated_length(l3) == Some(length));
    assert(l2[0] == kind);
    assert(l2.drop_first() =~= l3);
    assert(multipart::stated_length(l2) == Some(length));
    assert(l1[0] == boundary);
    assert(l1.drop_first() =~= l2);
    assert(multipart::stated_length(l1) == Some(length));
    let l0 = text::lines(none + crlf() + t1);
    assert(l0[0] == none);
    assert(l0.drop_first() =~= l1);
    assert(multipart::stated_length(l0) == Some(length));

    if first {
        assert(muxed_head(first, length) =~= t1);
    } else {
        assert(muxed_head(first, length) =~= none + crlf() + t1);
    }
}

/// A part of the muxer is cut whole, whatever comes behind it.
pub proof fn law_muxed_part_is_cut_whole(first: bool, body: Seq<u8>, rest: Seq<u8>)
    ensures
        multipart::part_length(muxed_part(first, body) + rest) == Some(
            muxed_part(first, body).len(),
        ),
{
    lemma_muxed_head(first, body.len());
    law_stated_length_frames_the_part(muxed_head(first, body.len()), body, rest);
}

/// Every part but the first starts with its own separator and boundary line, so that a reader that
/// missed the part before it still receives correct framing.
pub proof fn law_part_carries_its_own_separator(body: Seq<u8>)
    ensures
        vstd::utf8::encode_utf8("\r\n--ffmpeg\r\n"@).is_prefix_of(muxed_part(false, body)),
{
    lemma_muxed_head(false, body.len());
    reveal_strlit("\r\n--ffmpeg\r\n");
    reveal_strlit("--ffmpeg");
    let head = muxed_head(false, body.len());
    let start = "\r\n--ffmpeg\r\n"@;
    assert(vstd::utf8::is_ascii_chars(start));
    vstd::utf8::is_ascii_chars_encode_utf8(head);
    vstd::utf8::is_ascii_chars_encode_utf8(start);
    let bytes = vstd::utf8::encode_utf8(start);
    let part = muxed_part(false, body);
    assert(head.len() >= start.len());
    assert forall|i: int| 0 <= i < bytes.len() implies bytes[i] == part[i] by {
        assert(bytes[i] == start[i] as u8);
        assert(part[i] == head[i] as u8);
        assert(head[i] == start[i]);
    }
    assert(part.subrange(0, bytes.len() as int) =~= bytes);
}

/// Whether the bytes are a part that the muxer writes for some body.
spec fn is_muxed_part(bytes: Seq<u8>) -> bool {
    exists|first: bool, body: Seq<u8>| bytes == #[trigger] muxed_part(first, body)
}

proof fn lemma_muxed_parts_are_cut(list: Seq<Seq<u8>>, rest: Seq<u8>)
    requires
        forall|i: int| 0 <= i < list.len() ==> is_muxed_part(#[trigger] list[i]),
    ensures
        multipart::parts(list.flatten() + rest) == list + multipart::parts(rest),
        multipart::remainder(list.flatten() + rest) == multipart::remainder(rest),
    decreases list.len(),
{
    if list.len() == 0 {
        assert(list.flatten() + rest =~= rest);
        assert(list + multipart::parts(rest) =~= multipart::parts(rest));
    } else {
        let tail = list.drop_first();
        assert forall|i: int| 0 <= i < tail.len() implies is_muxed_part(#[trigger] tail[i]) by {
            assert(tail[i] == list[i + 1]);
        }
        lemma_muxed_parts_are_cut(tail, rest);
        assert(is_muxed_part(list[0]));
        let (first, body) = choose|first: bool, body: Seq<u8>|
            list[0] == #[trigger] muxed_part(first, body);
        let behind = tail.flatten() + rest;
        law_muxed_part_is_cut_whole(first, body, behind);
        let all = list.flatten() + rest;
        assert(all =~= list[0] + behind);
        multipart::lemma_part_length_bounds(all);
        let n = list[0].len() as int;
        assert(all.take(n) =~= list[0]);
        assert(all.skip(n) =~= behind);
        assert(seq![list[0]] + tail =~= list);
        assert(multipart::parts(all) =~= list + multipart::parts(rest));
    }
}

/// A stream of the muxer is cut into its parts, whole and in order, with nothing between them. What
/// comes behind it is cut as if it stood alone.
pub proof fn law_muxed_stream_is_cut_in_order(bodies: Seq<Seq<u8>>, rest: Seq<u8>)
    ensures
        multipart::parts(muxed_parts(bodies).flatten() + rest) == muxed_parts(bodies)
            + multipart::parts(rest),
        multipart::remainder(muxed_parts(bodies).flatten() + rest) == multipart::remainder(rest),
{
    let list = muxed_parts(bodies);
    assert forall|i: int| 0 <= i < list.len() implies is_muxed_part(#[trigger] list[i]) by {
        assert(list[i] == muxed_part(i == 0, bodies[i]));
    }
    lemma_muxed_parts_are_cut(list, rest);
}

/// The name spells `content-length`, each letter in upper or lower case.
pub open spec fn spells_content_length(name: Seq<char>) -> bool {
    let plain = "content-length"@;
    &&& name.len() == plain.len()
    &&& forall|i: int|
        0 <= i < plain.len() ==> #[trigger] name[i] == plain[i] || ('a' <= plain[i] <= 'z'
            && name[i] as u32 + 32 == plain[i] as u32)
}

/// Nothing but white space within a line.
pub open spec fn is_padding(s: Seq<char>) -> bool {
    forall|i: int|
        0 <= i < s.len() ==> text::is_white_space(#[trigger] s[i]) && s[i] != '\r' && s[i] != '\n'
}

/// The line states no length: it is no header, or a header of another name.
pub open spec fn states_no_length(line: Seq<char>) -> bool {
    match text::cut_at(line, ':') {
        Some((name, _)) => !spells_content_length(text::trimmed(name)),
        None => true,
    }
}

proof fn lemma_upper_case(c: char, d: char)
    ensures
        'a' <= d <= 'z' && c as u32 + 32 == d as u32 ==> 'A' <= c <= 'Z',
{
}

proof fn lemma_spelled_name(name: Seq<char>)
    requires
        spells_content_length(name),
    ensures
        text::same_but_for_case(name, "content-length"@),
        name.len() == 14,
        !name.contains(':'),
        !text::is_white_space(name[0]),
        !text::is_white_space(name.last()),
        on_one_line(name),
{
    reveal_strlit("content-length");
    let plain = "content-length"@;
    assert(plain.len() == 14);
    assert forall|i: int| 0 <= i < 14 implies (name[i] as u32 == plain[i] as u32 || name[i] as u32 + 32
        == plain[i] as u32) && 'a' <= plain[i] <= 'z' || plain[i] == '-' && name[i] == '-' by {
        assert(i == 0 || i == 1 || i == 2 || i == 3 || i == 4 || i == 5 || i == 6 || i == 7 || i == 8
            || i == 9 || i == 10 || i == 11 || i == 12 || i == 13);
        assert(name[i] == plain[i] || ('a' <= plain[i] <= 'z' && name[i] as u32 + 32
            == plain[i] as u32));
    }
    assert forall|i: int| 0 <= i < name.len() implies #[trigger] name[i] == plain[i] || ('A' <= name[i]
        <= 'Z' && plain[i] as u32 == name[i] as u32 + 32) || ('A' <= plain[i] <= 'Z'
        && name[i] as u32 == plain[i] as u32 + 32) by {
        assert(name[i] == plain[i] || ('a' <= plain[i] <= 'z' && name[i] as u32 + 32
            == plain[i] as u32));
        lemma_upper_case(name[i], plain[i]);
    }
    text::law_case_is_all_that_may_differ(name, plain);
    assert(name[0] == 'c' || name[0] == 'C') by {
        assert(plain[0] == 'c');
    }
    assert(name[13] == 'h' || name[13] == 'H') by {
        assert(plain[13] == 'h');
    }
    if name.contains(':') {
        let k = name.index_of(':');
        assert(name[k] as u32 == plain[k] as u32 || name[k] as u32 + 32 == plain[k] as u32 || name[k]
            == '-');
        assert(plain[k] != ':');
    }
    assert forall|i: int| 0 <= i < name.len() implies #[trigger] name[i] != '\r' && name[i]
        != '\n' by {
        assert(name[i] as u32 == plain[i] as u32 || name[i] as u32 + 32 == plain[i] as u32 || name[i]
            == '-');
    }
}

/// A header names the length of the body whatever the case of its name, and whatever white space stands
/// around the name and around the number: the stated length is that number.
pub proof fn law_length_is_stated_in_any_case(
    name: Seq<char>,
    number: Seq<char>,
    pads: (Seq<char>, Seq<char>, Seq<char>, Seq<char>),
    more: Seq<Seq<char>>,
)
    requires
        spells_content_length(name),
        is_padding(pads.0),
        is_padding(pads.1),
        is_padding(pads.2),
        is_padding(pads.3),
        text::number_value(number) is Some,
    ensures
        ({
            let line = pads.0 + name + pads.1 + seq![':'] + (pads.2 + number + pads.3);
            &&& multipart::length_header(line) == Some(number)
            &&& multipart::stated_length(seq![line] + more) == text::number_value(number)
        }),
{
    lemma_spelled_name(name);
    let front = pads.0 + name + pads.1;
    let value = pads.2 + number + pads.3;
    let line = front + seq![':'] + value;
    assert(!front.contains(':')) by {
        if front.contains(':') {
            let k = front.index_of(':');
            if k < pads.0.len() {
                assert(pads.0[k] == ':');
            } else if k < pads.0.len() + name.len() {
                assert(name[k - pads.0.len()] == ':');
            } else {
                assert(pads.1[k - pads.0.len() - name.len()] == ':');
            }
        }
    }
    text::law_text_is_cut_at_the_first_separator(front, ':', value);
    text::law_trimming_takes_the_white_space_around(pads.0, name, pads.1);
    text::law_anything_else_is_no_number(number, number.len() - 1);
    text::law_anything_else_is_no_number(number, 0);
    assert(!text::is_white_space(number[0]));
    assert(!text::is_white_space(number.last()));
    text::law_trimming_takes_the_white_space_around(pads.2, number, pads.3);
    let all = seq![line] + more;
    assert(all[0] == line);
}

/// A line that is no header, or a header of another name, states no length: the lines behind it count.
pub proof fn law_other_lines_state_no_length(line: Seq<char>, more: Seq<Seq<char>>)
    requires
        states_no_length(line),
    ensures
        multipart::length_header(line) is None,
        multipart::stated_length(seq![line] + more) == multipart::stated_length(more),
        multipart::stated_length(Seq::empty()) is None,
{
    let all = seq![line] + more;
    assert(all[0] == line);
    assert(all.drop_first() =~= more);
    match text::cut_at(line, ':') {
        Some((name, _)) => {
            let given = text::trimmed(name);
            let plain = "content-length"@;
            reveal_strlit("content-length");
            text::law_case_is_all_that_may_differ(given, plain);
            if text::same_but_for_case(given, plain) {
                assert forall|i: int| 0 <= i < plain.len() implies #[trigger] given[i] == plain[i]
                    || ('a' <= plain[i] <= 'z' && given[i] as u32 + 32 == plain[i] as u32) by {
                    assert(i == 0 || i == 1 || i == 2 || i == 3 || i == 4 || i == 5 || i == 6 || i == 7
                        || i == 8 || i == 9 || i == 10 || i == 11 || i == 12 || i == 13);
                    assert(!('A' <= plain[i] <= 'Z'));
                }
                assert(spells_content_length(given));
            }
        },
        None => {},
    }
}

/// A length that is no number is no length, and no later one counts in its place.
pub proof fn law_first_length_counts(name: Seq<char>, value: Seq<char>, more: Seq<Seq<char>>)
    requires
        !name.contains(':'),
        spells_content_length(text::trimmed(name)),
    ensures
        multipart::stated_length(seq![name + seq![':'] + value] + more) == text::number_value(
            text::trimmed(value),
        ),
{
    lemma_spelled_name(text::trimmed(name));
    let line = name + seq![':'] + value;
    text::law_text_is_cut_at_the_first_separator(name, ':', value);
    let all = seq![line] + more;
    assert(all[0] == line);
}

/// Lines, each with its ending, and a blank line behind them.
pub open spec fn header_block(lines: Seq<Seq<char>>) -> Seq<char>
    decreases lines.len(),
{
    if lines.len() == 0 {
        crlf()
    } else {
        lines[0] + crlf() + header_block(lines.drop_first())
    }
}

/// The lines of a header block: not empty, and each on one line.
pub open spec fn are_header_lines(lines: Seq<Seq<char>>) -> bool {
    &&& lines.len() > 0
    &&& forall|i: int| 0 <= i < lines.len() ==> (#[trigger] lines[i]).len() > 0
    &&& forall|i: int|
        0 <= i < lines.len() ==> !(#[trigger] lines[i]).contains('\r') && !lines[i].contains('\n')
}

/// A header block as bytes, with or without the separator that closes the part before it.
pub open spec fn block_bytes(separated: bool, lines: Seq<Seq<char>>) -> Seq<u8> {
    vstd::utf8::encode_utf8(
        if separated {
            crlf() + header_block(lines)
        } else {
            header_block(lines)
        },
    )
}

proof fn lemma_encode_in_two(a: Seq<char>, b: Seq<char>)
    ensures
        vstd::utf8::encode_utf8(a + b) == vstd::utf8::encode_utf8(a) + vstd::utf8::encode_utf8(b),
    decreases a.len(),
{
    if a.len() == 0 {
        assert(a + b =~= b);
        assert(vstd::utf8::encode_utf8(a) + vstd::utf8::encode_utf8(b) =~= vstd::utf8::encode_utf8(b));
    } else {
        lemma_encode_in_two(a.drop_first(), b);
        assert((a + b).drop_first() =~= a.drop_first() + b);
        assert((a + b)[0] == a[0]);
        assert(vstd::utf8::encode_utf8(a + b) =~= vstd::utf8::encode_utf8(a)
            + vstd::utf8::encode_utf8(b));
    }
}

proof fn lemma_no_return_in_code(c: char)
    requires
        c != '\r',
    ensures
        forall|i: int|
            0 <= i < vstd::utf8::encode_scalar(c as u32).len()
                ==> #[trigger] vstd::utf8::encode_scalar(c as u32)[i] != 13,
        vstd::utf8::encode_scalar(c as u32).len() > 0,
{
    let v: u32 = c as u32;
    vstd::utf8::char_is_scalar(c);
    assert(v != 13);
    assert(v <= 0x7f && v != 13 ==> (v & 0x7f) as u8 != 13u8) by (bit_vector);
    assert((0xC0u8 | ((v >> 6) & 0x1F) as u8) >= 0x80) by (bit_vector);
    assert((0xE0u8 | ((v >> 12) & 0x0F) as u8) >= 0x80) by (bit_vector);
    assert((0xF0u8 | ((v >> 18) & 0x7) as u8) >= 0x80) by (bit_vector);
    assert((0x80u8 | (v & 0x3F) as u8) >= 0x80) by (bit_vector);
    assert((0x80u8 | ((v >> 6) & 0x3F) as u8) >= 0x80) by (bit_vector);
    assert((0x80u8 | ((v >> 12) & 0x3F) as u8) >= 0x80) by (bit_vector);
}

proof fn lemma_no_return_in_line(line: Seq<char>)
    requires
        !line.contains('\r'),
    ensures
        forall|i: int|
            0 <= i < vstd::utf8::encode_utf8(line).len() ==> #[trigger] vstd::utf8::encode_utf8(line)[i]
                != 13,
        line.len() > 0 ==> vstd::utf8::encode_utf8(line).len() > 0,
    decreases line.len(),
{
    if line.len() > 0 {
        let rest = line.drop_first();
        assert(!rest.contains('\r')) by {
            if rest.contains('\r') {
                let k = rest.index_of('\r');
                assert(line[k + 1] == '\r');
            }
        }
        lemma_no_return_in_line(rest);
        assert(line.contains(line[0]));
        lemma_no_return_in_code(line[0]);
        let head = vstd::utf8::encode_scalar(line[0] as u32);
        let tail = vstd::utf8::encode_utf8(rest);
        assert(vstd::utf8::encode_utf8(line) =~= head + tail);
    }
}

proof fn lemma_crlf_bytes()
    ensures
        vstd::utf8::encode_utf8(crlf()) == seq![13u8, 10u8],
{
    let none = Seq::<char>::empty();
    lemma_encoded_line(none, none);
    assert(none + crlf() + none =~= crlf());
    assert(vstd::utf8::encode_utf8(none) =~= Seq::<u8>::empty());
    assert(vstd::utf8::encode_utf8(crlf()) =~= seq![13u8, 10u8]);
}

proof fn lemma_first_header_line(line: Seq<char>, rest: Seq<char>)
    requires
        !line.contains('\r'),
        !line.contains('\n'),
    ensures
        vstd::utf8::encode_utf8(line + crlf() + rest) == vstd::utf8::encode_utf8(line) + seq![
            13u8,
            10u8,
        ] + vstd::utf8::encode_utf8(rest),
        text::lines(line + crlf() + rest) == seq![line] + text::lines(rest),
{
    lemma_encode_in_two(line + crlf(), rest);
    lemma_encode_in_two(line, crlf());
    lemma_crlf_bytes();
    text::law_lines_end_at_line_feeds(line, rest);
    assert(crlf() =~= seq!['\r', '\n']);
}

proof fn lemma_header_block(lines: Seq<Seq<char>>)
    requires
        are_header_lines(lines),
    ensures
        ({
            let bytes = vstd::utf8::encode_utf8(header_block(lines));
            &&& bytes.len() >= 2
            &&& bytes[0] != 13
            &&& multipart::head_length(bytes) == Some(bytes.len())
            &&& text::lines(header_block(lines)) == lines.push(Seq::empty())
        }),
    decreases lines.len(),
{
    let line = lines[0];
    let rest = lines.drop_first();
    let tail = header_block(rest);
    let front = vstd::utf8::encode_utf8(line);
    let behind = vstd::utf8::encode_utf8(tail);
    lemma_first_header_line(line, tail);
    lemma_no_return_in_line(line);
    lemma_crlf_bytes();
    let bytes = vstd::utf8::encode_utf8(header_block(lines));
    assert(bytes == front + seq![13u8, 10u8] + behind);
    assert(bytes[0] == front[0]);
    if rest.len() == 0 {
        lemma_head_past_line(front, behind);
        let none = Seq::<char>::empty();
        text::law_lines_end_at_line_feeds(none, none);
        assert(none + seq!['\r', '\n'] + none =~= crlf());
        assert(text::lines(none) =~= Seq::<Seq<char>>::empty());
        assert(text::lines(crlf()) =~= seq![none]);
        assert(seq![line] + seq![none] =~= lines.push(none));
    } else {
        assert forall|i: int| 0 <= i < rest.len() implies (#[trigger] rest[i]).len() > 0
            && !rest[i].contains('\r') && !rest[i].contains('\n') by {
            assert(rest[i] == lines[i + 1]);
        }
        lemma_header_block(rest);
        lemma_head_past_line(front, behind);
        assert(seq![line] + rest.push(Seq::empty()) =~= lines.push(Seq::empty()));
    }
}

/// The bytes of a header block end at their first blank line, and their lines are those of the block.
proof fn lemma_block_bytes(separated: bool, lines: Seq<Seq<char>>)
    requires
        are_header_lines(lines),
    ensures
        ({
            let bytes = block_bytes(separated, lines);
            let shown = if separated {
                crlf() + header_block(lines)
            } else {
                header_block(lines)
            };
            &&& multipart::head_length(bytes) == Some(bytes.len())
            &&& bytes == vstd::utf8::encode_utf8(shown)
            &&& multipart::stated_length(text::lines(shown)) == multipart::stated_length(
                lines.push(Seq::empty()),
            )
        }),
{
    lemma_header_block(lines);
    if separated {
        let none = Seq::<char>::empty();
        let block = header_block(lines);
        lemma_first_header_line(none, block);
        assert(none + crlf() + block =~= crlf() + block);
        let front = vstd::utf8::encode_utf8(none);
        assert(front =~= Seq::<u8>::empty());
        lemma_head_past_line(front, vstd::utf8::encode_utf8(block));
        text::law_text_is_cut_at_the_first_separator(none, ':', none);
        law_other_lines_state_no_length(none, text::lines(block));
    }
}

proof fn lemma_stated_behind(lines: Seq<Seq<char>>, k: int)
    requires
        0 <= k <= lines.len(),
        forall|j: int| 0 <= j < k ==> states_no_length(#[trigger] lines[j]),
    ensures
        multipart::stated_length(lines) == multipart::stated_length(lines.skip(k)),
    decreases k,
{
    if k == 0 {
        assert(lines.skip(0) =~= lines);
    } else {
        let rest = lines.drop_first();
        assert(seq![lines[0]] + rest =~= lines);
        assert(states_no_length(lines[0]));
        law_other_lines_state_no_length(lines[0], rest);
        assert forall|j: int| 0 <= j < k - 1 implies states_no_length(#[trigger] rest[j]) by {
            assert(states_no_length(lines[j + 1]));
        }
        lemma_stated_behind(rest, k - 1);
        assert(rest.skip(k - 1) =~= lines.skip(k));
    }
}

/// A part of any muxer is cut by its stated length: whatever its header lines are, in whatever place the one
/// with the length stands, and however its name is spelled in upper and lower case, the header block and as
/// many bytes as it states are the part, whatever comes behind them.
pub proof fn law_part_of_any_muxer_is_cut_whole(
    separated: bool,
    lines: Seq<Seq<char>>,
    k: int,
    name: Seq<char>,
    number: Seq<char>,
    pads: (Seq<char>, Seq<char>, Seq<char>, Seq<char>),
    body: Seq<u8>,
    rest: Seq<u8>,
)
    requires
        are_header_lines(lines),
        0 <= k < lines.len(),
        forall|j: int| 0 <= j < k ==> states_no_length(#[trigger] lines[j]),
        lines[k] == pads.0 + name + pads.1 + seq![':'] + (pads.2 + number + pads.3),
        spells_content_length(name),
        is_padding(pads.0),
        is_padding(pads.1),
        is_padding(pads.2),
        is_padding(pads.3),
        text::number_value(number) == Some(body.len()),
    ensures
        multipart::part_length(block_bytes(separated, lines) + body + rest) == Some(
            block_bytes(separated, lines).len() + body.len(),
        ),
        forall|n: int|
            0 <= n < body.len() ==> multipart::part_length(
                block_bytes(separated, lines) + #[trigger] body.take(n),
            ) is None,
{
    lemma_block_bytes(separated, lines);
    let all = lines.push(Seq::empty());
    assert forall|j: int| 0 <= j < k implies states_no_length(#[trigger] all[j]) by {
        assert(states_no_length(lines[j]));
    }
    lemma_stated_behind(all, k);
    let behind = all.skip(k);
    law_length_is_stated_in_any_case(name, number, pads, behind.drop_first());
    assert(seq![lines[k]] + behind.drop_first() =~= behind);
    let shown = if separated {
        crlf() + header_block(lines)
    } else {
        header_block(lines)
    };
    law_stated_length_frames_the_part(shown, body, rest);
    let bytes = block_bytes(separated, lines);
    assert forall|n: int| 0 <= n < body.len() implies multipart::part_length(
        bytes + #[trigger] body.take(n),
    ) is None by {
        law_stated_length_frames_the_part(shown, body, Seq::empty());
        let whole = bytes + body + Seq::<u8>::empty();
        multipart::law_incomplete_part_waits(whole, bytes.len() + n);
        assert(whole.take(bytes.len() + n) =~= bytes + body.take(n));
    }
}

/// A part whose header lines state no length is never cut, whatever comes behind it.
pub proof fn law_part_without_a_length_is_not_cut(
    separated: bool,
    lines: Seq<Seq<char>>,
    rest: Seq<u8>,
)
    requires
        are_header_lines(lines),
        forall|j: int| 0 <= j < lines.len() ==> states_no_length(#[trigger] lines[j]),
    ensures
        multipart::part_length(block_bytes(separated, lines) + rest) is None,
{
    lemma_block_bytes(separated, lines);
    let all = lines.push(Seq::empty());
    let none = Seq::<char>::empty();
    text::law_text_is_cut_at_the_first_separator(none, ':', none);
    assert forall|j: int| 0 <= j < all.len() implies states_no_length(#[trigger] all[j]) by {
        if j < lines.len() {
            assert(states_no_length(lines[j]));
        }
    }
    lemma_stated_behind(all, all.len() as int);
    assert(all.skip(all.len() as int) =~= Seq::<Seq<char>>::empty());
    law_other_lines_state_no_length(none, Seq::empty());
    let bytes = block_bytes(separated, lines);
    let shown = if separated {
        crlf() + header_block(lines)
    } else {
        header_block(lines)
    };
    lemma_head_of_more(bytes, rest);
    vstd::utf8::encode_utf8_decode_utf8(shown);
    assert((bytes + rest).take(bytes.len() as int) =~= bytes);
}

proof fn lemma_head_of_more(bytes: Seq<u8>, rest: Seq<u8>)
    requires
        multipart::head_length(bytes) == Some(bytes.len()),
    ensures
        multipart::head_length(bytes + rest) == Some(bytes.len()),
{
    multipart::lemma_head_length_bounds(bytes);
    let n = bytes.len() as int;
    let all = bytes + rest;
    assert(multipart::blank_line_at(bytes, n - 4));
    assert(multipart::blank_line_at(all, n - 4));
    assert forall|j: int| 0 <= j < n - 4 implies !#[trigger] multipart::blank_line_at(all, j) by {
        assert(!multipart::blank_line_at(bytes, j));
    }
    multipart::lemma_head_length(all, n - 4);
}

/// A head that is not text states no length, and bytes without a blank line hold no head.
pub proof fn law_only_text_is_a_head(bytes: Seq<u8>, rest: Seq<u8>)
    ensures
        multipart::head_length(bytes) == Some(bytes.len()) && !vstd::utf8::valid_utf8(bytes)
            ==> multipart::part_length(bytes + rest) is None,
        (forall|j: int| !#[trigger] multipart::blank_line_at(rest, j)) ==> multipart::part_length(
            rest,
        ) is None,
{
    if multipart::head_length(bytes) == Some(bytes.len()) {
        lemma_head_of_more(bytes, rest);
        assert((bytes + rest).take(bytes.len() as int) =~= bytes);
    }
    if forall|j: int| !#[trigger] multipart::blank_line_at(rest, j) {
        multipart::lemma_head_length_none(rest);
    }
}

/// Whole parts, one behind the other, are cut into themselves, and what comes behind them as if it stood
/// alone.
pub proof fn law_whole_parts_are_cut_in_order(list: Seq<Seq<u8>>, rest: Seq<u8>)
    requires
        forall|i: int|
            0 <= i < list.len() ==> multipart::part_length(#[trigger] list[i]) == Some(list[i].len()),
    ensures
        multipart::parts(list.flatten() + rest) == list + multipart::parts(rest),
        multipart::remainder(list.flatten() + rest) == multipart::remainder(rest),
    decreases list.len(),
{
    if list.len() == 0 {
        assert(list.flatten() + rest =~= rest);
        assert(list + multipart::parts(rest) =~= multipart::parts(rest));
    } else {
        let tail = list.drop_first();
        assert forall|i: int| 0 <= i < tail.len() implies multipart::part_length(#[trigger] tail[i])
            == Some(tail[i].len()) by {
            assert(tail[i] == list[i + 1]);
        }
        law_whole_parts_are_cut_in_order(tail, rest);
        let behind = tail.flatten() + rest;
        assert(multipart::part_length(list[0]) == Some(list[0].len()));
        multipart::law_complete_part_is_final(list[0], behind);
        let all = list.flatten() + rest;
        assert(all =~= list[0] + behind);
        multipart::lemma_part_length_bounds(all);
        let n = list[0].len() as int;
        assert(all.take(n) =~= list[0]);
        assert(all.skip(n) =~= behind);
        assert(seq![list[0]] + tail =~= list);
        assert(multipart::parts(all) =~= list + multipart::parts(rest));
    }
}

/// The header lines that GStreamer's multipartmux writes for a body of this length.
pub open spec fn gstreamer_lines(length: nat) -> Seq<Seq<char>> {
    seq!["--ffmpeg"@, "Content-Type: image/jpeg"@, "Content-Length: "@ + text::decimal(length)]
}

/// One part of GStreamer's multipartmux. It writes the separator behind each body; so cut, it stands before
/// each part but the first.
pub open spec fn gstreamer_part(first: bool, body: Seq<u8>) -> Seq<u8> {
    block_bytes(!first, gstreamer_lines(body.len())) + body
}

/// The parts of GStreamer's multipartmux for a stream of pictures.
pub open spec fn gstreamer_parts(bodies: Seq<Seq<u8>>) -> Seq<Seq<u8>> {
    Seq::new(bodies.len(), |i: int| gstreamer_part(i == 0, bodies[i]))
}

proof fn lemma_gstreamer_part(first: bool, body: Seq<u8>)
    ensures
        multipart::part_length(gstreamer_part(first, body)) == Some(
            gstreamer_part(first, body).len(),
        ),
{
    let lines = gstreamer_lines(body.len());
    let number = text::decimal(body.len());
    text::law_decimal_reads_back(body.len());
    reveal_strlit("--ffmpeg");
    reveal_strlit("Content-Type: image/jpeg");
    reveal_strlit("Content-Length: ");
    reveal_strlit("Content-Length");
    reveal_strlit("content-length");
    let boundary = "--ffmpeg"@;
    let kind = "Content-Type: image/jpeg"@;
    let fixed = "Content-Length: "@;
    let name = "Content-Length"@;
    let stated = fixed + number;
    let none = Seq::<char>::empty();
    let pads = (none, none, seq![' '], none);
    assert(stated =~= pads.0 + name + pads.1 + seq![':'] + (pads.2 + number + pads.3));
    assert forall|i: int| 0 <= i < stated.len() implies stated[i] != '\r' && stated[i] != '\n' by {
        if i < 16 {
            assert(stated[i] == fixed[i]);
        } else {
            assert(text::is_digit(number[i - 16]));
        }
    }
    assert(spells_content_length(name)) by {
        let plain = "content-length"@;
        assert forall|i: int| 0 <= i < plain.len() implies #[trigger] name[i] == plain[i] || ('a'
            <= plain[i] <= 'z' && name[i] as u32 + 32 == plain[i] as u32) by {
            assert(i == 0 || i == 1 || i == 2 || i == 3 || i == 4 || i == 5 || i == 6 || i == 7 || i == 8
                || i == 9 || i == 10 || i == 11 || i == 12 || i == 13);
        }
    }
    text::lemma_position(boundary, ':', 8);
    text::lemma_position(kind, ':', 12);
    let other = kind.take(12);
    lemma_trimmed_unchanged(other);
    assert(states_no_length(boundary));
    assert(states_no_length(kind));
    assert forall|i: int| 0 <= i < lines.len() implies (#[trigger] lines[i]).len() > 0
        && !lines[i].contains('\r') && !lines[i].contains('\n') by {
        assert(i == 0 || i == 1 || i == 2);
    }
    law_part_of_any_muxer_is_cut_whole(!first, lines, 2, name, number, pads, body, Seq::empty());
    assert(block_bytes(!first, lines) + body + Seq::<u8>::empty() =~= gstreamer_part(first, body));
}

/// A stream of GStreamer's multipartmux is cut into exactly one part for each picture, in order. The
/// separator that it writes behind the last body waits for the next part.
pub proof fn law_gstreamer_stream_is_cut_in_order(bodies: Seq<Seq<u8>>)
    ensures
        multipart::parts(gstreamer_parts(bodies).flatten() + seq![13u8, 10u8]) == gstreamer_parts(
            bodies,
        ),
        multipart::remainder(gstreamer_parts(bodies).flatten() + seq![13u8, 10u8]) == seq![
            13u8,
            10u8,
        ],
        gstreamer_parts(bodies).len() == bodies.len(),
        forall|i: int|
            0 <= i < bodies.len() ==> bodies[i].is_suffix_of(#[trigger] gstreamer_parts(bodies)[i]),
{
    let list = gstreamer_parts(bodies);
    assert forall|i: int| 0 <= i < list.len() implies multipart::part_length(#[trigger] list[i])
        == Some(list[i].len()) by {
        lemma_gstreamer_part(i == 0, bodies[i]);
    }
    let end = seq![13u8, 10u8];
    law_whole_parts_are_cut_in_order(list, end);
    assert(multipart::head_length(end) is None);
    assert(multipart::parts(end) =~= Seq::<Seq<u8>>::empty());
    assert(list + multipart::parts(end) =~= list);
    assert forall|i: int| 0 <= i < bodies.len() implies bodies[i].is_suffix_of(
        #[trigger] list[i],
    ) by {
        let part = list[i];
        assert(part.subrange(part.len() - bodies[i].len(), part.len() as int) =~= bodies[i]);
    }
}

} // verus!
