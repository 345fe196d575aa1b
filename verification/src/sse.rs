//! Streams of server-sent events.

use vstd::prelude::*;
use vstd::string::*;

use crate::parts::{begins_with, join_texts, split_text};
use crate::parts;
use crate::text::{chars_of, same_text, text_between};
use crate::text;

verus! {

/// The text that `String::from_utf8_lossy` reads out of bytes.
pub uninterp spec fn lossy_text(bytes: Seq<u8>) -> Seq<char>;

/// `String::from_utf8_lossy`: the text that the bytes encode, with a replacement character for
/// each sequence that is not valid UTF-8. What it is, is a function of the bytes.
#[verifier::external_body]
pub(crate) fn read_lossy(bytes: &[u8]) -> (result: String)
    ensures
        result@ == lossy_text(bytes@),
        vstd::utf8::valid_utf8(bytes@) ==> result@ == vstd::utf8::decode_utf8(bytes@),
{
    String::from_utf8_lossy(bytes).into_owned()
}

/// A line without the carriage return at its end.
pub open spec fn without_return(line: Seq<char>) -> Seq<char> {
    if line.len() > 0 && line.last() == '\r' {
        line.drop_last()
    } else {
        line
    }
}

/// What a line adds to the data of its event.
pub open spec fn data_field(line: Seq<char>) -> Option<Seq<char>> {
    if line == "data"@ {
        Some(Seq::empty())
    } else if parts::stands_at(line, "data:"@, 0) {
        let value = line.skip(5);
        if value.len() > 0 && value[0] == ' ' {
            Some(value.skip(1))
        } else {
            Some(value)
        }
    } else {
        None
    }
}

/// How far a stream has been read: the data lines of the event that is not finished yet, and the
/// data of the events that are.
pub struct Progress {
    pub pending: Seq<Seq<char>>,
    pub events: Seq<Seq<char>>,
}

/// What has been read after the lines `lines`: a blank line finishes an event that has data.
pub open spec fn read_lines(lines: Seq<Seq<char>>) -> Progress
    decreases lines.len(),
{
    if lines.len() == 0 {
        Progress { pending: Seq::empty(), events: Seq::empty() }
    } else {
        let before = read_lines(lines.drop_last());
        let line = without_return(lines.last());
        if line.len() == 0 {
            if before.pending.len() == 0 {
                before
            } else {
                Progress {
                    pending: Seq::empty(),
                    events: before.events.push(parts::joined(before.pending, '\n')),
                }
            }
        } else {
            match data_field(line) {
                Some(value) => Progress {
                    pending: before.pending.push(value),
                    events: before.events,
                },
                None => before,
            }
        }
    }
}

/// The data of the events that a text finishes, in order. An event that the text leaves
/// unfinished is none.
pub open spec fn event_data(text: Seq<char>) -> Seq<Seq<char>> {
    read_lines(parts::split(text, '\n').drop_last()).events
}

/// A line without the carriage return at its end.
fn strip_return(line: &str) -> (result: String)
    ensures
        result@ == without_return(line@),
{
    let chars = chars_of(line);
    let length: usize = chars.len();
    if length > 0 && chars[length - 1] == '\r' {
        let result = text_between(&chars, 0, length - 1);
        assert(result@ =~= line@.drop_last());
        result
    } else {
        line.to_owned()
    }
}

/// What a line adds to the data of its event.
fn read_data_field(line: &str) -> (value: Option<String>)
    ensures
        text::optional_text(value) == data_field(line@),
{
    if same_text(line, "data") {
        let value = String::new();
        assert(value@ =~= Seq::empty());
        Some(value)
    } else if begins_with(line, "data:") {
        proof {
            reveal_strlit("data:");
        }
        let chars = chars_of(line);
        let from: usize = if chars.len() > 5 && chars[5] == ' ' {
            6
        } else {
            5
        };
        let value = text_between(&chars, from, chars.len());
        assert(line@.skip(5).len() > 0 ==> line@.skip(5)[0] == line@[5]);
        assert(value@ =~= data_field(line@)->0);
        Some(value)
    } else {
        None
    }
}

/// The data of the events in a stream, in order.
pub fn parse_sse_events(body: &[u8]) -> (events: Vec<String>)
    ensures
        text::texts(events@) == event_data(lossy_text(body@)),
        vstd::utf8::valid_utf8(body@) ==> lossy_text(body@) == vstd::utf8::decode_utf8(body@),
{
    broadcast use text::lemma_texts_push;

    let stream = read_lossy(body);
    let lines = split_text(stream.as_str(), '\n');
    let ghost held = text::texts(lines@);
    proof {
        parts::lemma_split_joined(stream@, '\n');
    }
    let count: usize = lines.len() - 1;
    let mut pending: Vec<String> = Vec::new();
    let mut events: Vec<String> = Vec::new();
    let mut i: usize = 0;
    assert(text::texts(pending@) =~= Seq::empty());
    assert(text::texts(events@) =~= Seq::empty());
    while i < count
        invariant
            i <= count < lines@.len(),
            held == text::texts(lines@),
            text::texts(pending@) == read_lines(held.take(i as int)).pending,
            text::texts(events@) == read_lines(held.take(i as int)).events,
        decreases count - i,
    {
        assert(held.take(i + 1).drop_last() =~= held.take(i as int));
        let line = strip_return(lines[i].as_str());
        if line.as_str().is_empty() {
            if pending.len() > 0 {
                events.push(join_texts(&pending, '\n'));
                pending = Vec::new();
                assert(text::texts(pending@) =~= Seq::empty());
            }
        } else {
            match read_data_field(line.as_str()) {
                Some(value) => {
                    pending.push(value);
                },
                None => {},
            }
        }
        i = i + 1;
    }
    assert(held.take(i as int) =~= held.drop_last());
    events
}

/// A line may end with a carriage return, which is no part of it.
proof fn lemma_without_return(line: Seq<char>, ending: Seq<char>)
    requires
        ending == Seq::<char>::empty() && (line.len() == 0 || line.last() != '\r') || ending == seq![
            '\r',
        ],
    ensures
        without_return(line + ending) == line,
{
    if ending.len() == 0 {
        assert(line + ending =~= line);
    } else {
        assert((line + ending).drop_last() =~= line);
    }
}

/// A data line adds its value to the event that is not finished yet, without the one space that may
/// stand in front of it and without the carriage return that may stand behind it.
pub proof fn law_data_lines_add_their_value(
    lines: Seq<Seq<char>>,
    value: Seq<char>,
    ending: Seq<char>,
)
    requires
        ending == Seq::<char>::empty() && (value.len() == 0 || value.last() != '\r') || ending
            == seq!['\r'],
    ensures
        read_lines(lines.push("data: "@ + value + ending)).pending == read_lines(
            lines,
        ).pending.push(value),
        read_lines(lines.push("data: "@ + value + ending)).events == read_lines(lines).events,
        value.len() == 0 || value[0] != ' ' ==> read_lines(
            lines.push("data:"@ + value + ending),
        ).pending == read_lines(lines).pending.push(value),
        value.len() == 0 || value[0] != ' ' ==> read_lines(
            lines.push("data:"@ + value + ending),
        ).events == read_lines(lines).events,
        read_lines(lines.push("data"@ + ending)).pending == read_lines(lines).pending.push(
            Seq::empty(),
        ),
        read_lines(lines.push("data"@ + ending)).events == read_lines(lines).events,
{
    reveal_strlit("data");
    reveal_strlit("data:");
    reveal_strlit("data: ");
    let (spaced, plain) = ("data: "@ + value, "data:"@ + value);
    assert("data: "@.len() == 6 && "data: "@[5] == ' ' && "data: "@.last() == ' ');
    assert("data:"@.len() == 5 && "data:"@.last() == ':');
    assert("data"@.len() == 4 && "data"@.last() == 'a');
    assert(value.len() > 0 ==> spaced.last() == value.last() && plain.last() == value.last());
    lemma_without_return(spaced, ending);
    lemma_without_return(plain, ending);
    lemma_without_return("data"@, ending);
    assert(lines.push(spaced + ending).drop_last() =~= lines);
    assert(lines.push(plain + ending).drop_last() =~= lines);
    assert(lines.push("data"@ + ending).drop_last() =~= lines);
    assert(spaced.subrange(0, 5) =~= "data:"@);
    assert(plain.subrange(0, 5) =~= "data:"@);
    assert(spaced.skip(5)[0] == ' ');
    assert(spaced.skip(5).skip(1) =~= value);
    assert(plain.skip(5) =~= value);
    assert(spaced != "data"@ && plain != "data"@);
}

/// A blank line finishes an event that has data, whose lines are joined by line feeds; without data
/// there is no event to finish.
pub proof fn law_blank_lines_finish_events(lines: Seq<Seq<char>>, ending: Seq<char>)
    requires
        ending == Seq::<char>::empty() || ending == seq!['\r'],
    ensures
        read_lines(lines).pending.len() == 0 ==> read_lines(lines.push(ending)) == read_lines(lines),
        read_lines(lines).pending.len() > 0 ==> read_lines(lines.push(ending)).pending.len() == 0
            && read_lines(lines.push(ending)).events == read_lines(lines).events.push(
            parts::joined(read_lines(lines).pending, '\n'),
        ),
{
    let none = Seq::<char>::empty();
    lemma_without_return(none, ending);
    assert(none + ending =~= ending);
    assert(lines.push(ending).drop_last() =~= lines);
}

/// A line of another field, or a comment, changes nothing.
pub proof fn law_other_fields_are_passed_over(
    lines: Seq<Seq<char>>,
    line: Seq<char>,
    ending: Seq<char>,
)
    requires
        ending == Seq::<char>::empty() && (line.len() == 0 || line.last() != '\r') || ending == seq![
            '\r',
        ],
        line.len() > 0,
        line != "data"@,
        line.len() >= 5 ==> line.take(5) != "data:"@,
    ensures
        read_lines(lines.push(line + ending)) == read_lines(lines),
{
    reveal_strlit("data:");
    assert("data:"@.len() == 5);
    lemma_without_return(line, ending);
    assert(lines.push(line + ending).drop_last() =~= lines);
    if line.len() >= 5 {
        assert(line.subrange(0, 5) =~= line.take(5));
    }
}

/// Behind lines that leave no event unfinished, reading begins anew.
proof fn lemma_read_behind(a: Seq<Seq<char>>, b: Seq<Seq<char>>)
    requires
        read_lines(a).pending.len() == 0,
    ensures
        read_lines(a + b).events == read_lines(a).events + read_lines(b).events,
        read_lines(a + b).pending == read_lines(b).pending,
    decreases b.len(),
{
    if b.len() == 0 {
        assert(a + b =~= a);
        assert(read_lines(a).pending =~= read_lines(b).pending);
        assert(read_lines(a).events =~= read_lines(a).events + read_lines(b).events);
    } else {
        lemma_read_behind(a, b.drop_last());
        assert((a + b).drop_last() =~= a + b.drop_last());
        assert((a + b).last() == b.last());
        assert(read_lines(a + b).events =~= read_lines(a).events + read_lines(b).events);
    }
}

/// What stands behind a line feed is split by itself.
proof fn lemma_split_behind(a: Seq<char>, b: Seq<char>)
    requires
        a.len() == 0 || a.last() == '\n',
    ensures
        parts::split(a + b, '\n') == parts::split(a, '\n').drop_last() + parts::split(b, '\n'),
        parts::split(a, '\n').last() == Seq::<char>::empty(),
        parts::split(b, '\n').len() > 0,
{
    parts::lemma_split_joined(b, '\n');
    if a.len() == 0 {
        assert(a + b =~= b);
        assert(parts::split(a, '\n').drop_last() + parts::split(b, '\n') =~= parts::split(b, '\n'));
    } else {
        let front = a.drop_last();
        assert(a =~= front.push('\n'));
        parts::law_separators_part_texts(front, b, '\n');
        assert(parts::split(a, '\n').drop_last() =~= parts::split(front, '\n'));
    }
}

/// The events of a stream that ends with a blank line, and of what follows it, are those of the one
/// and then those of the other.
pub proof fn law_streams_follow_each_other(a: Seq<char>, b: Seq<char>)
    requires
        a.len() == 0 || a.len() >= 2 && a[a.len() - 1] == '\n' && a[a.len() - 2] == '\n',
    ensures
        event_data(a + b) == event_data(a) + event_data(b),
{
    lemma_split_behind(a, b);
    let (x, y) = (parts::split(a, '\n').drop_last(), parts::split(b, '\n'));
    assert((x + y).drop_last() =~= x + y.drop_last());
    if a.len() > 0 {
        let front = a.drop_last();
        lemma_split_behind(front, Seq::empty());
        assert(x =~= parts::split(front, '\n'));
        assert(x.last() == Seq::<char>::empty());
    } else {
        assert(x =~= Seq::<Seq<char>>::empty());
    }
    assert(read_lines(x).pending.len() == 0);
    lemma_read_behind(x, y.drop_last());
}

/// An event that is not finished by a blank line is none, however much of it there is.
pub proof fn law_unfinished_events_are_none(a: Seq<char>, line: Seq<char>)
    requires
        a.len() == 0 || a.last() == '\n',
        !line.contains('\n'),
    ensures
        event_data(a + line) == event_data(a),
{
    lemma_split_behind(a, line);
    parts::law_separators_part_texts(line, line, '\n');
    let x = parts::split(a, '\n').drop_last();
    assert((x + seq![line]).drop_last() =~= x);
}

/// Data lines as a stream writes them.
pub open spec fn data_lines(values: Seq<Seq<char>>) -> Seq<char>
    decreases values.len(),
{
    if values.len() == 0 {
        Seq::empty()
    } else {
        data_lines(values.drop_last()) + ("data: "@ + values.last()).push('\n')
    }
}

/// Events as a stream writes them: each line of their data on a data line, and a blank line behind.
pub open spec fn written_stream(events: Seq<Seq<char>>) -> Seq<char>
    decreases events.len(),
{
    if events.len() == 0 {
        Seq::empty()
    } else {
        written_stream(events.drop_last()) + data_lines(parts::split(events.last(), '\n')).push(
            '\n',
        )
    }
}

/// Data lines are one line each.
proof fn lemma_data_lines(values: Seq<Seq<char>>, rest: Seq<char>)
    requires
        parts::are_free_of(values, '\n'),
    ensures
        parts::split(data_lines(values) + rest, '\n') == Seq::new(
            values.len(),
            |i: int| "data: "@ + values[i],
        ) + parts::split(rest, '\n'),
    decreases values.len(),
{
    let written = Seq::new(values.len(), |i: int| "data: "@ + values[i]);
    if values.len() == 0 {
        assert(data_lines(values) + rest =~= rest);
        assert(written + parts::split(rest, '\n') =~= parts::split(rest, '\n'));
    } else {
        let front = values.drop_last();
        let line = "data: "@ + values.last();
        assert forall|i: int| 0 <= i < front.len() implies !(#[trigger] front[i]).contains('\n') by {
            assert(front[i] == values[i]);
        }
        assert(!line.contains('\n')) by {
            reveal_strlit("data: ");
            let last = values[values.len() - 1];
            assert(!last.contains('\n'));
            assert forall|i: int| 0 <= i < line.len() implies line[i] != '\n' by {
                if i >= 6 {
                    assert(line[i] == last[i - 6]);
                    assert(last.contains(last[i - 6]));
                }
            }
        }
        lemma_data_lines(front, line.push('\n') + rest);
        assert(data_lines(values) + rest =~= data_lines(front) + (line.push('\n') + rest));
        parts::law_separators_part_texts(line, rest, '\n');
        assert(written + parts::split(rest, '\n') =~= Seq::new(
            front.len(),
            |i: int| "data: "@ + front[i],
        ) + (seq![line] + parts::split(rest, '\n')));
    }
}

/// Data lines add their values.
proof fn lemma_read_data_lines(values: Seq<Seq<char>>)
    requires
        forall|i: int|
            0 <= i < values.len() ==> (#[trigger] values[i]).len() == 0 || values[i].last() != '\r',
    ensures
        read_lines(Seq::new(values.len(), |i: int| "data: "@ + values[i])) == (Progress {
            pending: values,
            events: Seq::empty(),
        }),
    decreases values.len(),
{
    let written = Seq::new(values.len(), |i: int| "data: "@ + values[i]);
    if values.len() == 0 {
        assert(values =~= Seq::empty());
        assert(written =~= Seq::empty());
    } else {
        let front = values.drop_last();
        let last = values[values.len() - 1];
        assert forall|i: int| 0 <= i < front.len() implies (#[trigger] front[i]).len() == 0
            || front[i].last() != '\r' by {
            assert(front[i] == values[i]);
        }
        lemma_read_data_lines(front);
        let before = Seq::new(front.len(), |i: int| "data: "@ + front[i]);
        law_data_lines_add_their_value(before, last, Seq::empty());
        assert("data: "@ + last + Seq::<char>::empty() =~= "data: "@ + last);
        assert(written =~= before.push("data: "@ + last));
        assert(front.push(last) =~= values);
    }
}

/// A stream gives back the data of the events that were written to it, in order, where no line of
/// the data ends with a carriage return.
pub proof fn law_written_events_are_read_back(events: Seq<Seq<char>>)
    requires
        forall|i: int, j: int|
            0 <= i < events.len() && 0 <= j < parts::split(events[i], '\n').len() ==> (
            #[trigger] parts::split(events[i], '\n')[j]).len() == 0 || parts::split(
                events[i],
                '\n',
            )[j].last() != '\r',
    ensures
        event_data(written_stream(events)) == events,
    decreases events.len(),
{
    if events.len() == 0 {
        assert(parts::split(Seq::<char>::empty(), '\n').drop_last() =~= Seq::<Seq<char>>::empty());
        assert(event_data(written_stream(events)) =~= events);
    } else {
        let (front, event) = (events.drop_last(), events[events.len() - 1]);
        let values = parts::split(event, '\n');
        assert forall|i: int, j: int|
            0 <= i < front.len() && 0 <= j < parts::split(front[i], '\n').len() implies (
        #[trigger] parts::split(front[i], '\n')[j]).len() == 0 || parts::split(
            front[i],
            '\n',
        )[j].last() != '\r' by {
            assert(front[i] == events[i]);
        }
        law_written_events_are_read_back(front);
        parts::lemma_split_free(event, '\n');
        parts::lemma_split_joined(event, '\n');
        let one = data_lines(values).push('\n');
        let feed = seq!['\n'];
        let written = Seq::new(values.len(), |i: int| "data: "@ + values[i]);
        lemma_data_lines(values, feed);
        assert(one =~= data_lines(values) + feed);
        lemma_split_behind(feed, Seq::empty());
        let none = Seq::<char>::empty();
        assert(feed.drop_last() =~= none);
        assert(parts::split(feed, '\n') =~= seq![none, none]);
        assert(parts::split(one, '\n').drop_last() =~= written.push(none));
        lemma_read_data_lines(values);
        law_blank_lines_finish_events(written, none);
        assert(event_data(one) =~= seq![event]);
        lemma_stream_ends(front);
        law_streams_follow_each_other(written_stream(front), one);
        assert(event_data(written_stream(events)) =~= events);
    }
}

/// A stream of events ends with a blank line.
proof fn lemma_stream_ends(events: Seq<Seq<char>>)
    ensures
        ({
            let stream = written_stream(events);
            stream.len() == 0 || stream.len() >= 2 && stream[stream.len() - 1] == '\n'
                && stream[stream.len() - 2] == '\n'
        }),
{
    if events.len() > 0 {
        parts::lemma_split_joined(events.last(), '\n');
        let lines = data_lines(parts::split(events.last(), '\n'));
        assert(lines.last() == '\n');
        let stream = written_stream(events);
        assert(stream.last() == '\n');
        assert(stream[stream.len() - 2] == lines.last());
    }
}

}
