//! A user's GStreamer pipeline as the arguments of a command line.
//!
//! The user writes everything up to an `image/jpeg` stream, as on a command line: arguments are
//! separated by white space, quotes keep white space in an argument, and a backslash takes the next
//! character as it is, but for single quotes, in which everything is taken as it is.

use crate::text;
use crate::text::{chars_of, is_whitespace, push_text, push_texts, string_of, trim};
use vstd::prelude::*;

verus! {

/// How far a pipeline has been split.
pub struct Split {
    /// The arguments that are complete.
    pub args: Seq<Seq<char>>,
    /// The argument that is being read.
    pub current: Seq<char>,
    /// The quotation mark that is open.
    pub quote: Option<char>,
    /// Whether the character before was a backslash that takes the next one as it is.
    pub escaped: bool,
}

/// Nothing has been read yet.
pub open spec fn split_start() -> Split {
    Split { args: Seq::empty(), current: Seq::empty(), quote: None, escaped: false }
}

/// The argument that was being read is complete; an empty one does not count.
pub open spec fn close_argument(state: Split) -> Split {
    if state.current.len() > 0 {
        Split { args: state.args.push(state.current), current: Seq::empty(), ..state }
    } else {
        state
    }
}

/// One character further.
pub open spec fn split_next(state: Split, ch: char) -> Split {
    let kept = Split { current: state.current.push(ch), escaped: false, ..state };
    if state.escaped {
        kept
    } else if state.quote == Some(ch) {
        Split { quote: None, ..state }
    } else if ch == '\\' && state.quote != Some('\'') {
        Split { escaped: true, ..state }
    } else if state.quote is Some {
        kept
    } else if ch == '\'' || ch == '"' {
        Split { quote: Some(ch), ..state }
    } else if text::is_white_space(ch) {
        close_argument(state)
    } else {
        kept
    }
}

/// All of `s` further.
pub open spec fn split_all(state: Split, s: Seq<char>) -> Split
    decreases s.len(),
{
    if s.len() == 0 {
        state
    } else {
        split_next(split_all(state, s.drop_last()), s.last())
    }
}

/// The arguments that a pipeline is made of, or what is wrong with it.
pub open spec fn split_result(s: Seq<char>) -> Result<Seq<Seq<char>>, Seq<char>> {
    let end = split_all(split_start(), s);
    if end.escaped {
        Err("custom GStreamer pipeline ends with an incomplete escape"@)
    } else if end.quote is Some {
        Err("custom GStreamer pipeline has an unterminated quote"@)
    } else {
        Ok(close_argument(end).args)
    }
}

/// Splits a pipeline into its arguments.
pub fn split_gstreamer_pipeline(input: &str) -> (r: Result<Vec<String>, String>)
    ensures
        match r {
            Ok(args) => split_result(input@) == Ok::<Seq<Seq<char>>, Seq<char>>(
                text::strings(args@),
            ),
            Err(message) => split_result(input@) == Err::<Seq<Seq<char>>, Seq<char>>(message@),
        },
{
    let chars: Vec<char> = chars_of(input);
    let mut args: Vec<String> = Vec::new();
    let mut current: String = String::new();
    let mut quote: Option<char> = None;
    let mut escaped: bool = false;
    let ghost start = split_start();
    let mut i: usize = 0;
    proof {
        assert(text::strings(args@) =~= Seq::<Seq<char>>::empty());
        assert(chars@.take(0) =~= Seq::<char>::empty());
    }
    while i < chars.len()
        invariant
            i <= chars@.len(),
            start == split_start(),
            ({
                let state = split_all(start, chars@.take(i as int));
                &&& state.args == text::strings(args@)
                &&& state.current == current@
                &&& state.quote == quote
                &&& state.escaped == escaped
            }),
            quote is Some ==> quote->0 == '\'' || quote->0 == '"',
        decreases chars@.len() - i,
    {
        let ch: char = chars[i];
        proof {
            assert(chars@.take(i + 1).drop_last() =~= chars@.take(i as int));
            assert(chars@.take(i + 1).last() == ch);
        }
        if escaped {
            current.push(ch);
            escaped = false;
        } else {
            match quote {
                Some(mark) => {
                    if ch == mark {
                        quote = None;
                    } else if ch == '\\' && mark == '"' {
                        escaped = true;
                    } else {
                        current.push(ch);
                    }
                },
                None => {
                    if ch == '\'' || ch == '"' {
                        quote = Some(ch);
                    } else if ch == '\\' {
                        escaped = true;
                    } else if is_whitespace(ch) {
                        if !current.as_str().is_empty() {
                            push_text(&mut args, current.as_str());
                            current = String::new();
                        }
                    } else {
                        current.push(ch);
                    }
                },
            }
        }
        i = i + 1;
    }
    proof {
        assert(chars@.take(i as int) =~= input@);
    }
    if escaped {
        return Err("custom GStreamer pipeline ends with an incomplete escape".to_string());
    }
    if quote.is_some() {
        return Err("custom GStreamer pipeline has an unterminated quote".to_string());
    }
    if !current.as_str().is_empty() {
        push_text(&mut args, current.as_str());
    }
    Ok(args)
}

proof fn lemma_split_in_two(state: Split, a: Seq<char>, b: Seq<char>)
    ensures
        split_all(state, a + b) == split_all(split_all(state, a), b),
    decreases b.len(),
{
    if b.len() == 0 {
        assert(a + b =~= a);
    } else {
        assert((a + b).drop_last() =~= a + b.drop_last());
        assert((a + b).last() == b.last());
        lemma_split_in_two(state, a, b.drop_last());
    }
}

proof fn lemma_split_one(state: Split, s: Seq<char>)
    requires
        s.len() > 0,
    ensures
        split_all(state, s) == split_all(split_next(state, s[0]), s.drop_first()),
{
    let one = seq![s[0]];
    assert(one + s.drop_first() =~= s);
    lemma_split_in_two(state, one, s.drop_first());
    assert(one.drop_last() =~= Seq::<char>::empty());
    assert(split_all(state, one.drop_last()) == state);
    assert(split_all(state, one) == split_next(state, s[0]));
}

proof fn lemma_arguments_are_not_empty(s: Seq<char>)
    ensures
        forall|i: int|
            0 <= i < split_all(split_start(), s).args.len() ==> (#[trigger] split_all(
                split_start(),
                s,
            ).args[i]).len() > 0,
    decreases s.len(),
{
    if s.len() > 0 {
        lemma_arguments_are_not_empty(s.drop_last());
    }
}

/// No argument of a pipeline is empty, however it was quoted.
pub proof fn law_arguments_are_not_empty(s: Seq<char>)
    ensures
        split_result(s) is Ok ==> forall|i: int|
            0 <= i < split_result(s)->Ok_0.len() ==> (#[trigger] split_result(s)->Ok_0[i]).len()
                > 0,
{
    lemma_arguments_are_not_empty(s);
}

/// Whether `s` has neither quotation marks nor backslashes.
pub open spec fn is_plain(s: Seq<char>) -> bool {
    forall|i: int| 0 <= i < s.len() ==> #[trigger] s[i] != '\'' && s[i] != '"' && s[i] != '\\'
}

/// Whether `s` has no white space.
spec fn is_one_word(s: Seq<char>) -> bool {
    forall|i: int| 0 <= i < s.len() ==> !text::is_white_space(#[trigger] s[i])
}

proof fn lemma_words_skip_space(s: Seq<char>)
    requires
        s.len() > 0,
        text::is_white_space(s[0]),
    ensures
        text::words(s) == text::words(s.drop_first()),
{
}

proof fn lemma_words_first(word: Seq<char>, rest: Seq<char>)
    requires
        word.len() > 0,
        is_one_word(word),
        rest.len() > 0 ==> text::is_white_space(rest[0]),
    ensures
        text::words(word + rest) == seq![word] + text::words(rest),
{
    let all = word + rest;
    let n = word.len() as int;
    assert(all[0] == word[0]);
    assert(text::trimmed_start(all) == all);
    assert forall|j: int| 0 <= j < n implies !text::is_white_space(#[trigger] all[j]) by {
        assert(all[j] == word[j]);
    }
    if rest.len() > 0 {
        assert(all[n] == rest[0]);
    }
    text::lemma_word_length(all, n);
    assert(all.take(n) =~= word);
    assert(all.skip(n) =~= rest);
}

proof fn lemma_plain_pipeline(state: Split, s: Seq<char>)
    requires
        is_plain(s),
        state.quote is None,
        !state.escaped,
        is_one_word(state.current),
    ensures
        ({
            let end = split_all(state, s);
            &&& end.quote is None
            &&& !end.escaped
            &&& close_argument(end).args == state.args + text::words(state.current + s)
        }),
    decreases s.len(),
{
    if s.len() == 0 {
        assert(state.current + s =~= state.current);
        if state.current.len() > 0 {
            lemma_words_first(state.current, s);
            assert(state.current + s =~= state.current);
            assert(state.args + text::words(state.current) =~= state.args.push(state.current));
        } else {
            assert(state.args + text::words(state.current + s) =~= state.args);
        }
    } else {
        lemma_split_one(state, s);
        let next = split_next(state, s[0]);
        let rest = s.drop_first();
        assert forall|i: int| 0 <= i < rest.len() implies #[trigger] rest[i] != '\'' && rest[i]
            != '"' && rest[i] != '\\' by {
            assert(rest[i] == s[i + 1]);
        }
        assert(s[0] != '\'' && s[0] != '"' && s[0] != '\\');
        lemma_plain_pipeline(next, rest);
        if text::is_white_space(s[0]) {
            lemma_words_skip_space(s);
            if state.current.len() > 0 {
                lemma_words_first(state.current, s);
                assert(next.current + rest =~= rest);
                assert(next.args + text::words(rest) =~= state.args + (seq![state.current]
                    + text::words(rest)));
            } else {
                assert(next.current + rest =~= rest);
                assert(state.current + s =~= s);
            }
        } else {
            assert(next.current + rest =~= state.current + s);
        }
    }
}

/// A pipeline without quotes and backslashes is split into its words.
pub proof fn law_plain_pipeline_is_its_words(s: Seq<char>)
    requires
        is_plain(s),
    ensures
        split_result(s) == Ok::<Seq<Seq<char>>, Seq<char>>(text::words(s)),
{
    lemma_plain_pipeline(split_start(), s);
    assert(split_start().current + s =~= s);
    assert(split_start().args + text::words(s) =~= text::words(s));
}

/// `s` with a backslash before every character.
pub open spec fn escaped_text(s: Seq<char>) -> Seq<char>
    decreases s.len(),
{
    if s.len() == 0 {
        Seq::empty()
    } else {
        escaped_text(s.drop_last()) + seq!['\\', s.last()]
    }
}

/// The arguments with a backslash before every character and a space behind each argument.
pub open spec fn escaped_line(args: Seq<Seq<char>>) -> Seq<char>
    decreases args.len(),
{
    if args.len() == 0 {
        Seq::empty()
    } else {
        escaped_line(args.drop_last()) + (escaped_text(args.last()) + seq![' '])
    }
}

proof fn lemma_split_escaped_text(state: Split, s: Seq<char>)
    requires
        state.quote is None,
        !state.escaped,
    ensures
        split_all(state, escaped_text(s)) == (Split { current: state.current + s, ..state }),
    decreases s.len(),
{
    if s.len() == 0 {
        assert(state.current + s =~= state.current);
    } else {
        let before = s.drop_last();
        lemma_split_escaped_text(state, before);
        let pair = seq!['\\', s.last()];
        lemma_split_in_two(state, escaped_text(before), pair);
        let middle = split_all(state, escaped_text(before));
        lemma_split_one(middle, pair);
        let tail = pair.drop_first();
        lemma_split_one(split_next(middle, '\\'), tail);
        assert(tail.drop_first() =~= Seq::<char>::empty());
        assert((state.current + before).push(s.last()) =~= state.current + s);
    }
}

proof fn lemma_split_escaped_line(args: Seq<Seq<char>>)
    requires
        forall|i: int| 0 <= i < args.len() ==> (#[trigger] args[i]).len() > 0,
    ensures
        split_all(split_start(), escaped_line(args)) == (Split { args: args, ..split_start() }),
    decreases args.len(),
{
    if args.len() == 0 {
        assert(args =~= split_start().args);
    } else {
        let before = args.drop_last();
        let last = args.last();
        assert(args[args.len() - 1].len() > 0);
        lemma_split_escaped_line(before);
        let state = Split { args: before, ..split_start() };
        let space = seq![' '];
        lemma_split_in_two(
            split_start(),
            escaped_line(before),
            escaped_text(last) + space,
        );
        lemma_split_in_two(state, escaped_text(last), space);
        lemma_split_escaped_text(state, last);
        let read = split_all(state, escaped_text(last));
        lemma_split_one(read, space);
        assert(space.drop_first() =~= Seq::<char>::empty());
        assert(state.current + last =~= last);
        assert(before.push(last) =~= args);
        assert(split_next(read, ' ').args =~= args);
    }
}

/// Arguments of any characters can be written so that splitting gives them back: with a backslash
/// before every character.
pub proof fn law_escaped_arguments_are_read_back(args: Seq<Seq<char>>)
    requires
        forall|i: int| 0 <= i < args.len() ==> (#[trigger] args[i]).len() > 0,
    ensures
        split_result(escaped_line(args)) == Ok::<Seq<Seq<char>>, Seq<char>>(args),
{
    lemma_split_escaped_line(args);
}

/// The program that is started with the arguments of a source.
#[derive(Clone, Copy, PartialEq, Eq, Debug, Structural)]
pub enum Program {
    /// The ffmpeg that the host finds, or the `ffmpeg` of the search path.
    Ffmpeg,
    /// `gst-launch-1.0` of the search path.
    GstLaunch,
}

/// The name that messages give a program.
pub open spec fn program_name(program: Program) -> Seq<char> {
    match program {
        Program::Ffmpeg => "ffmpeg"@,
        Program::GstLaunch => "gstreamer"@,
    }
}

/// The file that a program is started from, where the host does not find another.
pub open spec fn executable_name(program: Program) -> Seq<char> {
    match program {
        Program::Ffmpeg => "ffmpeg"@,
        Program::GstLaunch => "gst-launch-1.0"@,
    }
}

impl Program {
    /// The file that the program is started from, where the host does not find another.
    pub fn executable(self) -> (r: &'static str)
        ensures
            r@ == executable_name(self),
    {
        match self {
            Program::Ffmpeg => "ffmpeg",
            Program::GstLaunch => "gst-launch-1.0",
        }
    }

    /// The name that messages give the program.
    pub fn name(self) -> (r: &'static str)
        ensures
            r@ == program_name(self),
    {
        match self {
            Program::Ffmpeg => "ffmpeg",
            Program::GstLaunch => "gstreamer",
        }
    }
}

/// A command line.
#[derive(Debug)]
pub struct Launch {
    /// The program to start.
    pub program: Program,
    /// Its arguments.
    pub args: Vec<String>,
}

/// The elements that make a multipart stream on standard output of the user's `image/jpeg`.
pub open spec fn sink_arguments() -> Seq<Seq<char>> {
    seq![
        "!"@,
        "multipartmux"@,
        "boundary=ffmpeg"@,
        "!"@,
        "fdsink"@,
        "fd=1"@,
        "sync=false"@,
    ]
}

/// The arguments that a user's pipeline is started with, or why it cannot be.
pub open spec fn gstreamer_arguments(pipeline: Seq<char>, on_linux: bool) -> Result<
    Seq<Seq<char>>,
    Seq<char>,
> {
    if !on_linux {
        Err("custom GStreamer pipelines are currently available on Linux only"@)
    } else {
        match split_result(text::trimmed(pipeline)) {
            Err(message) => Err(message),
            Ok(args) => if args.len() == 0 {
                Err("custom GStreamer pipeline is empty"@)
            } else {
                Ok(seq!["-q"@] + args + sink_arguments())
            },
        }
    }
}

/// The command line of a user's pipeline. The user controls everything up to an `image/jpeg` stream;
/// the mux and the sink behind it are fixed, so that the framing always matches the server.
pub fn build_gstreamer_command(pipeline: &str, on_linux: bool) -> (r: Result<Launch, String>)
    ensures
        match r {
            Ok(launch) => {
                &&& launch.program == Program::GstLaunch
                &&& gstreamer_arguments(pipeline@, on_linux) == Ok::<Seq<Seq<char>>, Seq<char>>(
                    text::strings(launch.args@),
                )
            },
            Err(message) => gstreamer_arguments(pipeline@, on_linux) == Err::<
                Seq<Seq<char>>,
                Seq<char>,
            >(message@),
        },
{
    if !on_linux {
        return Err(
            "custom GStreamer pipelines are currently available on Linux only".to_string(),
        );
    }
    let chars: Vec<char> = chars_of(pipeline);
    let trimmed: String = string_of(trim(chars.as_slice()));
    let split: Vec<String> = match split_gstreamer_pipeline(trimmed.as_str()) {
        Ok(split) => split,
        Err(message) => {
            return Err(message);
        },
    };
    if split.len() == 0 {
        return Err("custom GStreamer pipeline is empty".to_string());
    }
    let ghost given = text::strings(split@);
    let mut args: Vec<String> = Vec::new();
    push_text(&mut args, "-q");
    push_texts(&mut args, &split);
    push_text(&mut args, "!");
    push_text(&mut args, "multipartmux");
    push_text(&mut args, "boundary=ffmpeg");
    push_text(&mut args, "!");
    push_text(&mut args, "fdsink");
    push_text(&mut args, "fd=1");
    push_text(&mut args, "sync=false");
    proof {
        assert(text::strings(args@) =~= seq!["-q"@] + given + sink_arguments());
    }
    Ok(Launch { program: Program::GstLaunch, args })
}

proof fn lemma_split_single(state: Split, ch: char)
    ensures
        split_all(state, seq![ch]) == split_next(state, ch),
{
    assert(seq![ch].drop_last() =~= Seq::<char>::empty());
    assert(split_all(state, seq![ch].drop_last()) == state);
}

proof fn lemma_split_within_quotes(state: Split, s: Seq<char>, q: char)
    requires
        state.quote == Some(q),
        q == '\'' || q == '"',
        !state.escaped,
        !s.contains(q),
        q == '"' ==> !s.contains('\\'),
    ensures
        split_all(state, s) == (Split { current: state.current + s, ..state }),
    decreases s.len(),
{
    if s.len() == 0 {
        assert(state.current + s =~= state.current);
    } else {
        let before = s.drop_last();
        let c = s.last();
        assert(s[s.len() - 1] == c);
        assert(!before.contains(q)) by {
            if before.contains(q) {
                assert(s[before.index_of(q)] == q);
            }
        }
        if before.contains('\\') {
            assert(s[before.index_of('\\')] == '\\');
        }
        lemma_split_within_quotes(state, before, q);
        assert((state.current + before).push(c) =~= state.current + s);
    }
}

/// A quoted text is read back: it is appended to the argument that is being read exactly as it stands, with
/// its white space and the other quotation mark in it, and no quotation is left open. Within single quotes
/// that holds of backslashes too.
pub proof fn law_quoted_text_is_read_back(state: Split, s: Seq<char>, q: char)
    requires
        state.quote is None,
        !state.escaped,
        q == '\'' || q == '"',
        !s.contains(q),
        q == '"' ==> !s.contains('\\'),
    ensures
        split_all(state, seq![q] + s + seq![q]) == (Split { current: state.current + s, ..state }),
{
    let open = Split { quote: Some(q), ..state };
    lemma_split_in_two(state, seq![q] + s, seq![q]);
    lemma_split_in_two(state, seq![q], s);
    lemma_split_single(state, q);
    assert(split_next(state, q) == open);
    lemma_split_within_quotes(open, s, q);
    lemma_split_single(Split { current: state.current + s, ..open }, q);
}

/// A backslash takes the character behind it as it is, outside of quotes and within double quotes, whatever
/// character that is.
pub proof fn law_backslash_takes_the_next_character(state: Split, c: char)
    requires
        state.quote is None || state.quote == Some('"'),
        !state.escaped,
    ensures
        split_all(state, seq!['\\', c]) == (Split { current: state.current.push(c), ..state }),
{
    assert(seq!['\\', c] =~= seq!['\\'] + seq![c]);
    lemma_split_in_two(state, seq!['\\'], seq![c]);
    lemma_split_single(state, '\\');
    lemma_split_single(Split { escaped: true, ..state }, c);
}

/// Outside of quotes a character is appended to the argument that is being read, unless it is a quotation
/// mark, a backslash or white space.
pub proof fn law_other_characters_are_kept(state: Split, s: Seq<char>)
    requires
        state.quote is None,
        !state.escaped,
        forall|i: int|
            0 <= i < s.len() ==> #[trigger] s[i] != '\'' && s[i] != '"' && s[i] != '\\'
                && !text::is_white_space(s[i]),
    ensures
        split_all(state, s) == (Split { current: state.current + s, ..state }),
    decreases s.len(),
{
    if s.len() == 0 {
        assert(state.current + s =~= state.current);
    } else {
        let before = s.drop_last();
        assert forall|i: int| 0 <= i < before.len() implies #[trigger] before[i] != '\'' && before[i]
            != '"' && before[i] != '\\' && !text::is_white_space(before[i]) by {
            assert(before[i] == s[i]);
        }
        law_other_characters_are_kept(state, before);
        assert(s[s.len() - 1] == s.last());
        assert((state.current + before).push(s.last()) =~= state.current + s);
    }
}

/// White space outside of quotes ends the argument that is being read. More of it changes nothing, and an
/// argument of no characters does not count.
pub proof fn law_white_space_ends_the_argument(state: Split, space: Seq<char>)
    requires
        state.quote is None,
        !state.escaped,
        space.len() > 0,
        forall|i: int| 0 <= i < space.len() ==> text::is_white_space(#[trigger] space[i]),
    ensures
        split_all(state, space) == (Split {
            args: if state.current.len() > 0 {
                state.args.push(state.current)
            } else {
                state.args
            },
            current: Seq::empty(),
            ..state
        }),
    decreases space.len(),
{
    let before = space.drop_last();
    assert(text::is_white_space(space[space.len() - 1]));
    assert(!text::is_white_space('\'') && !text::is_white_space('"') && !text::is_white_space('\\'));
    let empty = Seq::<char>::empty();
    if state.current.len() == 0 {
        assert(state.current =~= empty);
    }
    if before.len() > 0 {
        assert forall|i: int| 0 <= i < before.len() implies text::is_white_space(
            #[trigger] before[i],
        ) by {
            assert(before[i] == space[i]);
        }
        law_white_space_ends_the_argument(state, before);
    } else {
        assert(split_all(state, before) == state);
    }
}

/// Some of an argument, as it may be written.
pub enum Piece {
    /// Characters that stand for themselves.
    Plain(Seq<char>),
    /// A character with a backslash before it.
    Escaped(char),
    /// A text in single quotes.
    Single(Seq<char>),
    /// Characters in double quotes, each with or without a backslash before it.
    Double(Seq<(bool, char)>),
}

/// The characters, those that are marked with a backslash before them.
pub open spec fn with_backslashes(list: Seq<(bool, char)>) -> Seq<char>
    decreases list.len(),
{
    if list.len() == 0 {
        Seq::empty()
    } else if list.last().0 {
        with_backslashes(list.drop_last()) + seq!['\\', list.last().1]
    } else {
        with_backslashes(list.drop_last()) + seq![list.last().1]
    }
}

/// The characters.
pub open spec fn characters(list: Seq<(bool, char)>) -> Seq<char> {
    list.map_values(|item: (bool, char)| item.1)
}

/// How the piece is written.
pub open spec fn written(piece: Piece) -> Seq<char> {
    match piece {
        Piece::Plain(s) => s,
        Piece::Escaped(c) => seq!['\\', c],
        Piece::Single(s) => seq!['\''] + s + seq!['\''],
        Piece::Double(list) => seq!['"'] + with_backslashes(list) + seq!['"'],
    }
}

/// What the piece stands for.
pub open spec fn meant(piece: Piece) -> Seq<char> {
    match piece {
        Piece::Plain(s) => s,
        Piece::Escaped(c) => seq![c],
        Piece::Single(s) => s,
        Piece::Double(list) => characters(list),
    }
}

/// The piece can be written so.
pub open spec fn can_be_written(piece: Piece) -> bool {
    match piece {
        Piece::Plain(s) => forall|i: int|
            0 <= i < s.len() ==> #[trigger] s[i] != '\'' && s[i] != '"' && s[i] != '\\'
                && !text::is_white_space(s[i]),
        Piece::Escaped(_) => true,
        Piece::Single(s) => !s.contains('\''),
        Piece::Double(list) => can_be_quoted(list),
    }
}

/// The characters can stand in double quotes: those without a backslash before them are neither a double
/// quote nor a backslash.
pub open spec fn can_be_quoted(list: Seq<(bool, char)>) -> bool {
    forall|i: int|
        0 <= i < list.len() ==> (#[trigger] list[i]).0 || (list[i].1 != '"' && list[i].1 != '\\')
}

proof fn lemma_split_double(state: Split, list: Seq<(bool, char)>)
    requires
        state.quote == Some('"'),
        !state.escaped,
        can_be_quoted(list),
    ensures
        split_all(state, with_backslashes(list)) == (Split {
            current: state.current + characters(list),
            ..state
        }),
    decreases list.len(),
{
    if list.len() == 0 {
        assert(state.current + characters(list) =~= state.current);
    } else {
        let before = list.drop_last();
        let (marked, c) = list.last();
        assert(list[list.len() - 1] == list.last());
        assert(can_be_quoted(before)) by {
            assert forall|i: int| 0 <= i < before.len() implies (#[trigger] before[i]).0 || (before[i].1
                != '"' && before[i].1 != '\\') by {
                assert(before[i] == list[i]);
                assert(list[i].0 || (list[i].1 != '"' && list[i].1 != '\\'));
            }
        }
        lemma_split_double(state, before);
        let read = Split { current: state.current + characters(before), ..state };
        if marked {
            lemma_split_in_two(state, with_backslashes(before), seq!['\\', c]);
            law_backslash_takes_the_next_character(read, c);
        } else {
            lemma_split_in_two(state, with_backslashes(before), seq![c]);
            lemma_split_single(read, c);
        }
        assert((state.current + characters(before)).push(c) =~= state.current + characters(list));
    }
}

/// However a piece of an argument is written, plainly, with a backslash or in quotes, what it stands for is
/// appended to the argument that is being read, and nothing is left open.
pub proof fn law_pieces_are_read_back(state: Split, piece: Piece)
    requires
        state.quote is None,
        !state.escaped,
        can_be_written(piece),
    ensures
        split_all(state, written(piece)) == (Split { current: state.current + meant(piece), ..state }),
{
    match piece {
        Piece::Plain(s) => {
            law_other_characters_are_kept(state, s);
        },
        Piece::Escaped(c) => {
            law_backslash_takes_the_next_character(state, c);
            assert(state.current.push(c) =~= state.current + seq![c]);
        },
        Piece::Single(s) => {
            law_quoted_text_is_read_back(state, s, '\'');
        },
        Piece::Double(list) => {
            let inner = with_backslashes(list);
            let open = Split { quote: Some('"'), ..state };
            lemma_split_in_two(state, seq!['"'] + inner, seq!['"']);
            lemma_split_in_two(state, seq!['"'], inner);
            lemma_split_single(state, '"');
            lemma_split_double(open, list);
            lemma_split_single(Split { current: state.current + characters(list), ..open }, '"');
        },
    }
}

/// How the pieces of an argument are written.
pub open spec fn written_all(pieces: Seq<Piece>) -> Seq<char>
    decreases pieces.len(),
{
    if pieces.len() == 0 {
        Seq::empty()
    } else {
        written_all(pieces.drop_last()) + written(pieces.last())
    }
}

/// What the pieces of an argument stand for.
pub open spec fn meant_all(pieces: Seq<Piece>) -> Seq<char>
    decreases pieces.len(),
{
    if pieces.len() == 0 {
        Seq::empty()
    } else {
        meant_all(pieces.drop_last()) + meant(pieces.last())
    }
}

/// All the pieces can be written so.
pub open spec fn all_can_be_written(pieces: Seq<Piece>) -> bool {
    forall|i: int| 0 <= i < pieces.len() ==> can_be_written(#[trigger] pieces[i])
}

proof fn lemma_split_pieces(state: Split, pieces: Seq<Piece>)
    requires
        state.quote is None,
        !state.escaped,
        all_can_be_written(pieces),
    ensures
        split_all(state, written_all(pieces)) == (Split {
            current: state.current + meant_all(pieces),
            ..state
        }),
    decreases pieces.len(),
{
    if pieces.len() == 0 {
        assert(state.current + meant_all(pieces) =~= state.current);
    } else {
        let before = pieces.drop_last();
        assert forall|i: int| 0 <= i < before.len() implies can_be_written(#[trigger] before[i]) by {
            assert(before[i] == pieces[i]);
        }
        lemma_split_pieces(state, before);
        let read = Split { current: state.current + meant_all(before), ..state };
        lemma_split_in_two(state, written_all(before), written(pieces.last()));
        assert(can_be_written(pieces[pieces.len() - 1]));
        law_pieces_are_read_back(read, pieces.last());
        assert(read.current + meant(pieces.last()) =~= state.current + meant_all(pieces));
    }
}

/// Arguments as they may be written, and white space behind each of them.
pub open spec fn written_line(args: Seq<Seq<Piece>>, gaps: Seq<Seq<char>>) -> Seq<char>
    decreases args.len(),
{
    if args.len() == 0 {
        Seq::empty()
    } else {
        written_line(args.drop_last(), gaps.drop_last()) + (written_all(args.last()) + gaps.last())
    }
}

/// The arguments that the pieces stand for. One of no characters does not count.
pub open spec fn meant_arguments(args: Seq<Seq<Piece>>) -> Seq<Seq<char>>
    decreases args.len(),
{
    if args.len() == 0 {
        Seq::empty()
    } else {
        let before = meant_arguments(args.drop_last());
        if meant_all(args.last()).len() > 0 {
            before.push(meant_all(args.last()))
        } else {
            before
        }
    }
}

proof fn lemma_split_line(state: Split, args: Seq<Seq<Piece>>, gaps: Seq<Seq<char>>)
    requires
        state.quote is None,
        !state.escaped,
        state.current.len() == 0,
        args.len() == gaps.len(),
        forall|i: int| 0 <= i < args.len() ==> all_can_be_written(#[trigger] args[i]),
        forall|i: int| 0 <= i < gaps.len() ==> is_gap(#[trigger] gaps[i]),
    ensures
        split_all(state, written_line(args, gaps)) == (Split {
            args: state.args + meant_arguments(args),
            ..state
        }),
    decreases args.len(),
{
    assert(state.current =~= Seq::<char>::empty());
    if args.len() == 0 {
        assert(state.args + meant_arguments(args) =~= state.args);
    } else {
        let before = args.drop_last();
        let earlier = gaps.drop_last();
        assert forall|i: int| 0 <= i < before.len() implies all_can_be_written(
            #[trigger] before[i],
        ) by {
            assert(before[i] == args[i]);
        }
        assert forall|i: int| 0 <= i < earlier.len() implies is_gap(#[trigger] earlier[i]) by {
            assert(earlier[i] == gaps[i]);
        }
        lemma_split_line(state, before, earlier);
        let read = Split { args: state.args + meant_arguments(before), ..state };
        let last = args.last();
        let gap = gaps.last();
        assert(all_can_be_written(args[args.len() - 1]));
        assert(is_gap(gaps[gaps.len() - 1]));
        lemma_split_in_two(state, written_line(before, earlier), written_all(last) + gap);
        lemma_split_in_two(read, written_all(last), gap);
        lemma_split_pieces(read, last);
        assert(read.current + meant_all(last) =~= meant_all(last));
        law_white_space_ends_the_argument(Split { current: meant_all(last), ..read }, gap);
        assert(split_all(state, written_line(args, gaps)).args =~= state.args + meant_arguments(args));
    }
}

/// White space, and some of it.
pub open spec fn is_gap(space: Seq<char>) -> bool {
    space.len() > 0 && forall|i: int|
        0 <= i < space.len() ==> text::is_white_space(#[trigger] space[i])
}

/// A pipeline is split into the arguments that were written: whatever white space stands before it, between
/// its arguments and behind them, and however the pieces of each argument are written, plainly, with
/// backslashes or in quotes of either kind, the arguments are what the pieces stand for, in order.
pub proof fn law_written_arguments_are_read_back(
    lead: Seq<char>,
    args: Seq<Seq<Piece>>,
    gaps: Seq<Seq<char>>,
    last: Seq<Piece>,
)
    requires
        lead.len() == 0 || is_gap(lead),
        args.len() == gaps.len(),
        forall|i: int| 0 <= i < args.len() ==> all_can_be_written(#[trigger] args[i]),
        forall|i: int| 0 <= i < gaps.len() ==> is_gap(#[trigger] gaps[i]),
        all_can_be_written(last),
    ensures
        split_result(lead + written_line(args, gaps) + written_all(last)) == Ok::<
            Seq<Seq<char>>,
            Seq<char>,
        >(meant_arguments(args.push(last))),
{
    let start = split_start();
    let line = written_line(args, gaps);
    lemma_split_in_two(start, lead + line, written_all(last));
    lemma_split_in_two(start, lead, line);
    if lead.len() > 0 {
        law_white_space_ends_the_argument(start, lead);
        assert(split_all(start, lead) == start);
    } else {
        assert(split_all(start, lead) == start);
    }
    lemma_split_line(start, args, gaps);
    let read = Split { args: meant_arguments(args), ..start };
    assert(start.args + meant_arguments(args) =~= meant_arguments(args));
    lemma_split_pieces(read, last);
    assert(read.current + meant_all(last) =~= meant_all(last));
    assert(args.push(last).drop_last() =~= args);
}

/// A quotation that is not closed is refused, and so is a backslash with nothing behind it, outside of quotes
/// and within double quotes; the backslash is named where both are wrong. That holds behind any pipeline that
/// is complete.
pub proof fn law_unfinished_pipelines_are_refused(p: Seq<char>, s: Seq<char>, q: char)
    requires
        split_result(p) is Ok,
        q == '\'' || q == '"',
        !s.contains(q),
        q == '"' ==> !s.contains('\\'),
    ensures
        split_result(p + (seq![q] + s)) == Err::<Seq<Seq<char>>, Seq<char>>(
            "custom GStreamer pipeline has an unterminated quote"@,
        ),
        split_result(p + seq!['\\']) == Err::<Seq<Seq<char>>, Seq<char>>(
            "custom GStreamer pipeline ends with an incomplete escape"@,
        ),
        q == '"' ==> split_result(p + (seq![q] + s + seq!['\\'])) == Err::<
            Seq<Seq<char>>,
            Seq<char>,
        >("custom GStreamer pipeline ends with an incomplete escape"@),
        split_result(p + (seq![q] + s + seq![q])) is Ok,
{
    let start = split_start();
    let state = split_all(start, p);
    let open = Split { quote: Some(q), ..state };
    lemma_split_in_two(start, p, seq![q] + s);
    lemma_split_in_two(state, seq![q], s);
    lemma_split_single(state, q);
    lemma_split_within_quotes(open, s, q);
    lemma_split_in_two(start, p, seq!['\\']);
    lemma_split_single(state, '\\');
    lemma_split_in_two(start, p, seq![q] + s + seq!['\\']);
    lemma_split_in_two(state, seq![q] + s, seq!['\\']);
    lemma_split_single(Split { current: state.current + s, ..open }, '\\');
    lemma_split_in_two(start, p, seq![q] + s + seq![q]);
    law_quoted_text_is_read_back(state, s, q);
}

/// On Linux a pipeline is started with its own arguments, quietly, and with the multipart stream on standard
/// output behind them. White space around it changes nothing. One without arguments is refused, and so is
/// any on another system.
pub proof fn law_pipeline_gets_a_multipart_sink(
    before: Seq<char>,
    pipeline: Seq<char>,
    after: Seq<char>,
    args: Seq<Seq<char>>,
)
    requires
        forall|i: int| 0 <= i < before.len() ==> text::is_white_space(#[trigger] before[i]),
        forall|i: int| 0 <= i < after.len() ==> text::is_white_space(#[trigger] after[i]),
        pipeline.len() > 0 ==> !text::is_white_space(pipeline[0]) && !text::is_white_space(
            pipeline.last(),
        ),
    ensures
        split_result(pipeline) == Ok::<Seq<Seq<char>>, Seq<char>>(args) && args.len() > 0
            ==> gstreamer_arguments(before + pipeline + after, true) == Ok::<
            Seq<Seq<char>>,
            Seq<char>,
        >(
            seq!["-q"@] + args + seq![
                "!"@,
                "multipartmux"@,
                "boundary=ffmpeg"@,
                "!"@,
                "fdsink"@,
                "fd=1"@,
                "sync=false"@,
            ],
        ),
        split_result(pipeline) == Ok::<Seq<Seq<char>>, Seq<char>>(Seq::empty())
            ==> gstreamer_arguments(before + pipeline + after, true) == Err::<
            Seq<Seq<char>>,
            Seq<char>,
        >("custom GStreamer pipeline is empty"@),
        split_result(pipeline) is Err ==> gstreamer_arguments(before + pipeline + after, true)
            == split_result(pipeline),
        gstreamer_arguments(pipeline, false) == Err::<Seq<Seq<char>>, Seq<char>>(
            "custom GStreamer pipelines are currently available on Linux only"@,
        ),
{
    text::law_trimming_takes_the_white_space_around(before, pipeline, after);
}

/// Each program is started from its own file, and messages call it by its own name.
pub proof fn law_programs_have_their_names()
    ensures
        program_name(Program::Ffmpeg) == "ffmpeg"@,
        program_name(Program::GstLaunch) == "gstreamer"@,
        executable_name(Program::Ffmpeg) == "ffmpeg"@,
        executable_name(Program::GstLaunch) == "gst-launch-1.0"@,
{
}

} // verus!
