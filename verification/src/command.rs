//! The text of a message: which command it gives, and the event that the
//! body of an `add_event` command describes.

use crate::cal::Event;
use crate::clock::date_in_format;
use crate::clock::parse_date;
use crate::clock::parse_time;
use crate::clock::time_in_format;
use crate::clock::utc_seconds;
use crate::clock::utc_seconds_of;
use vstd::prelude::*;
use vstd::std_specs::iter::IteratorSpec;
use vstd::string::StrSliceExecFns;
use vstd::string::StringExecFns;

verus! {

/// What a piece of text is cut at.
#[derive(Clone, Copy, Debug, PartialEq, Eq)]
pub enum Mark {
    /// This character.
    Char(char),
    /// Any white space.
    Space,
}

/// What std's `char::is_whitespace` returns for `c`.
pub uninterp spec fn is_whitespace(c: char) -> bool;

/// Whether `c` is white space, as std's `char::is_whitespace` decides it
/// (by Unicode's property `White_Space`).
#[verifier::external_body]
fn char_is_whitespace(c: char) -> (r: bool)
    ensures
        r == is_whitespace(c),
{
    c.is_whitespace()
}

impl Mark {
    /// Whether the text is cut at `c`.
    pub open spec fn accepts(self, c: char) -> bool {
        match self {
            Mark::Char(m) => c == m,
            Mark::Space => is_whitespace(c),
        }
    }

    fn test(self, c: char) -> (r: bool)
        ensures
            r == self.accepts(c),
    {
        match self {
            Mark::Char(m) => c == m,
            Mark::Space => char_is_whitespace(c),
        }
    }
}

/// The position of the first character of `s` that `mark` accepts, or the
/// length of `s` where it accepts none.
pub open spec fn first_at(s: Seq<char>, mark: Mark) -> int
    decreases s.len(),
{
    if s.len() == 0 || mark.accepts(s[0]) {
        0
    } else {
        1 + first_at(s.drop_first(), mark)
    }
}

/// `first_at` is the least accepted position.
pub proof fn lemma_first_at(s: Seq<char>, mark: Mark)
    ensures
        0 <= first_at(s, mark) <= s.len(),
        forall|j: int| 0 <= j < first_at(s, mark) ==> !mark.accepts(#[trigger] s[j]),
        first_at(s, mark) < s.len() ==> mark.accepts(s[first_at(s, mark)]),
    decreases s.len(),
{
    if s.len() == 0 || mark.accepts(s[0]) {
    } else {
        let t = s.drop_first();
        lemma_first_at(t, mark);
        assert forall|j: int| 0 <= j < first_at(s, mark) implies !mark.accepts(#[trigger] s[j]) by {
            if j > 0 {
                assert(s[j] == t[j - 1]);
            }
        }
        assert(first_at(s, mark) < s.len() ==> s[first_at(s, mark)] == t[first_at(t, mark)]);
    }
}

/// The position of the first character of `s` that `mark` accepts.
fn find(s: &str, mark: Mark) -> (at: usize)
    ensures
        at == first_at(s@, mark),
{
    broadcast use vstd::string::axiom_spec_iter, vstd::string::next_postcondition;

    let n = s.unicode_len();
    let mut chars = s.chars();
    let mut at: usize = 0;
    let mut found = false;
    while !found
        invariant
            at <= n == s@.len(),
            !found ==> chars.remaining() == s@.subrange(at as int, n as int),
            forall|j: int| 0 <= j < at ==> !mark.accepts(#[trigger] s@[j]),
            found ==> (at == n || mark.accepts(s@[at as int])),
        decreases n - at + (if found { 0int } else { 1int }),
    {
        match chars.next() {
            Some(c) => {
                assert(c == s@[at as int]);
                if mark.test(c) {
                    found = true;
                } else {
                    at = at + 1;
                    assert(chars.remaining() =~= s@.subrange(at as int, n as int));
                }
            },
            None => {
                found = true;
            },
        }
    }
    proof {
        lemma_first_at(s@, mark);
    }
    at
}

/// The command that a message gives, and what follows it. The command
/// starts after the first `/` and ends before the first blank; where there is
/// an `@` before that end, the command ends before it (the rest names the
/// bot that is addressed). What follows the blank is the body. A text without
/// `/` gives no command and is all body.
pub open spec fn command_of(text: Seq<char>) -> (Seq<char>, Seq<char>) {
    let slash = first_at(text, Mark::Char('/'));
    if slash == text.len() {
        (Seq::<char>::empty(), text)
    } else {
        let after = text.subrange(slash + 1, text.len() as int);
        let blank = first_at(after, Mark::Char(' '));
        let at = first_at(after, Mark::Char('@'));
        let name = after.subrange(0, if at < blank { at } else { blank });
        let body = if blank < after.len() {
            after.subrange(blank + 1, after.len() as int)
        } else {
            Seq::<char>::empty()
        };
        (name, body)
    }
}

/// Given the text of a message, parses out the command and the rest of the
/// message. Positions count characters.
pub fn parse_command(text: &str) -> (parsed: (&str, &str))
    ensures
        parsed.0@ == command_of(text@).0,
        parsed.1@ == command_of(text@).1,
{
    proof {
        lemma_first_at(text@, Mark::Char('/'));
    }
    let n = text.unicode_len();
    let slash = find(text, Mark::Char('/'));
    if slash == n {
        (text.substring_char(0, 0), text)
    } else {
        let after = text.substring_char(slash + 1, n);
        proof {
            lemma_first_at(after@, Mark::Char(' '));
            lemma_first_at(after@, Mark::Char('@'));
        }
        let m = after.unicode_len();
        let blank = find(after, Mark::Char(' '));
        let at = find(after, Mark::Char('@'));
        let name = after.substring_char(0, if at < blank { at } else { blank });
        let body = if blank < m {
            after.substring_char(blank + 1, m)
        } else {
            after.substring_char(0, 0)
        };
        (name, body)
    }
}

/// The three fields of the body of an `add_event` command: the date, the
/// time and the description. The text is cut at its first two white-space
/// characters. Without any there is no time; without a second one the
/// description is empty.
pub open spec fn fields_of(text: Seq<char>) -> (Seq<char>, Option<Seq<char>>, Seq<char>) {
    let i = first_at(text, Mark::Space);
    if i == text.len() {
        (text, None, Seq::<char>::empty())
    } else {
        let rest = text.subrange(i + 1, text.len() as int);
        let j = first_at(rest, Mark::Space);
        if j == rest.len() {
            (text.subrange(0, i), Some(rest), Seq::<char>::empty())
        } else {
            (
                text.subrange(0, i),
                Some(rest.subrange(0, j)),
                rest.subrange(j + 1, rest.len() as int),
            )
        }
    }
}

/// Cuts the body of an `add_event` command into its fields.
pub fn split_fields(text: &str) -> (fields: (&str, Option<&str>, &str))
    ensures
        fields.0@ == fields_of(text@).0,
        match fields.1 {
            Some(time) => fields_of(text@).1 == Some(time@),
            None => fields_of(text@).1 is None,
        },
        fields.2@ == fields_of(text@).2,
{
    proof {
        lemma_first_at(text@, Mark::Space);
    }
    let n = text.unicode_len();
    let i = find(text, Mark::Space);
    if i == n {
        (text, None, text.substring_char(0, 0))
    } else {
        let rest = text.substring_char(i + 1, n);
        proof {
            lemma_first_at(rest@, Mark::Space);
        }
        let m = rest.unicode_len();
        let j = find(rest, Mark::Space);
        if j == m {
            (text.substring_char(0, i), Some(rest), text.substring_char(0, 0))
        } else {
            (
                text.substring_char(0, i),
                Some(rest.substring_char(0, j)),
                rest.substring_char(j + 1, m),
            )
        }
    }
}

/// How long an event lasts that a command adds: an hour, in seconds.
pub const EVENT_SECONDS: u64 = 3600;

/// The local time of the commands lies this many seconds west of UTC.
pub const WEST_SECONDS: i32 = 7;

/// The start of the event that `text` describes, in seconds since the Unix
/// epoch, where `text` has a date and a time that can be read and that name
/// a moment that exists.
pub open spec fn start_of(text: Seq<char>) -> Option<i64> {
    let fields = fields_of(text);
    match fields.1 {
        None => None,
        Some(time_text) => match (
            date_in_format(fields.0, "%m/%d/%Y"@),
            time_in_format(time_text, "%H:%M:%S"@),
        ) {
            (Some(days), Some(time)) => utc_seconds(days, time.0, time.1, WEST_SECONDS),
            _ => None,
        },
    }
}

/// The event that starts at `start` and is described by `description`; an
/// error where there is no start.
pub fn event_at(start: Option<i64>, description: &str) -> (made: Result<Event, &'static str>)
    ensures
        match start {
            Some(seconds) => {
                &&& made is Ok
                &&& made->Ok_0.organizer@ == Seq::<char>::empty()
                &&& made->Ok_0.description@ == description@
                &&& made->Ok_0.date == seconds
                &&& made->Ok_0.duration == EVENT_SECONDS
            },
            None => made is Err && made->Err_0@ == "wrong"@,
        },
{
    match start {
        Some(seconds) => Ok(
            Event {
                organizer: String::new(),
                description: String::from_str(description),
                date: seconds,
                duration: EVENT_SECONDS,
            },
        ),
        None => Err("wrong"),
    }
}

/// Parses a date, a time and a description out of the body of an
/// `add_event` command. The date is read as month/day/year, the time as
/// hour:minute:second; the event lasts an hour.
pub fn parse_event(text: &str) -> (made: Result<Event, &'static str>)
    ensures
        match start_of(text@) {
            Some(seconds) => {
                &&& made is Ok
                &&& made->Ok_0.organizer@ == Seq::<char>::empty()
                &&& made->Ok_0.description@ == fields_of(text@).2
                &&& made->Ok_0.date == seconds
                &&& made->Ok_0.duration == EVENT_SECONDS
            },
            None => made is Err && made->Err_0@ == "wrong"@,
        },
{
    let fields = split_fields(text);
    let start = match fields.1 {
        None => None,
        Some(time_text) => match (
            parse_date(fields.0, "%m/%d/%Y"),
            parse_time(time_text, "%H:%M:%S"),
        ) {
            (Some(days), Some(time)) => utc_seconds_of(days, time.0, time.1, WEST_SECONDS),
            _ => None,
        },
    };
    event_at(start, fields.2)
}

/// Whether two texts hold the same characters.
fn same_text(a: &str, b: &str) -> (same: bool)
    ensures
        same == (a@ == b@),
{
    broadcast use vstd::string::axiom_spec_iter, vstd::string::next_postcondition;

    let n = a.unicode_len();
    if b.unicode_len() != n {
        return false;
    }
    let mut left = a.chars();
    let mut right = b.chars();
    let mut at: usize = 0;
    while at < n
        invariant
            at <= n == a@.len() == b@.len(),
            left.remaining() == a@.subrange(at as int, n as int),
            right.remaining() == b@.subrange(at as int, n as int),
            a@.subrange(0, at as int) == b@.subrange(0, at as int),
        decreases n - at,
    {
        let x = left.next();
        let y = right.next();
        assert(x == Some(a@[at as int]) && y == Some(b@[at as int]));
        if x != y {
            assert(a@[at as int] != b@[at as int]);
            return false;
        }
        at = at + 1;
        assert(left.remaining() =~= a@.subrange(at as int, n as int));
        assert(right.remaining() =~= b@.subrange(at as int, n as int));
        assert(a@.subrange(0, at as int) =~= a@.subrange(0, at - 1).push(a@[at - 1]));
        assert(b@.subrange(0, at as int) =~= b@.subrange(0, at - 1).push(b@[at - 1]));
    }
    assert(a@ =~= a@.subrange(0, n as int));
    assert(b@ =~= b@.subrange(0, n as int));
    true
}

/// What the bot does about a message.
#[derive(Clone, Debug, PartialEq, Eq)]
pub enum Reaction {
    /// Send this text back.
    Echo(String),
    /// The message describes this event.
    Added(Event),
    /// The message asks for an event and does not describe one; the text
    /// says so.
    Refused(&'static str),
    /// The message asks for nothing.
    Ignore,
}

/// Decides what to do about a message. The command `echo` with a body asks
/// for the body back; the command `add_event` asks for the event that its
/// body describes; anything else asks for nothing.
pub fn react(text: &str) -> (reaction: Reaction)
    ensures
        ({
            let (command, body) = command_of(text@);
            if command == "echo"@ && body.len() > 0 {
                reaction is Echo && reaction->Echo_0@ == body
            } else if command == "add_event"@ {
                match start_of(body) {
                    Some(seconds) => {
                        &&& reaction is Added
                        &&& reaction->Added_0.organizer@ == Seq::<char>::empty()
                        &&& reaction->Added_0.description@ == fields_of(body).2
                        &&& reaction->Added_0.date == seconds
                        &&& reaction->Added_0.duration == EVENT_SECONDS
                    },
                    None => reaction is Refused && reaction->Refused_0@ == "wrong"@,
                }
            } else {
                reaction is Ignore
            }
        }),
{
    let (command, body) = parse_command(text);
    if same_text(command, "echo") && body.unicode_len() > 0 {
        Reaction::Echo(String::from_str(body))
    } else if same_text(command, "add_event") {
        match parse_event(body) {
            Ok(event) => Reaction::Added(event),
            Err(message) => Reaction::Refused(message),
        }
    } else {
        Reaction::Ignore
    }
}

} // verus!
