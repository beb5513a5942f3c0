//! Inspection of the watched log file: on each modify event only the last line
//! of the file is looked at, for the completion marker.
use vstd::prelude::*;
use crate::text::{occurs_in, str_contains};

verus! {

/// The substring whose presence in the log's last line signals that the client
/// finished a verification or update cycle.
pub const VERIFICATION_MARKER: &'static str = "Verification complete";

/// What the decoding of `b` as UTF-8 gives: `None` where `b` is not valid UTF-8.
pub uninterp spec fn utf8_decoded(b: Seq<u8>) -> Option<Seq<char>>;

/// Relies on `String::from_utf8`: `Ok` exactly when the bytes are valid UTF-8,
/// holding the characters they encode.
#[verifier::external_body]
fn decode_utf8(b: Vec<u8>) -> (r: Option<String>)
    ensures
        r matches Some(s) ==> utf8_decoded(b@) == Some(s@),
        r is None ==> utf8_decoded(b@) is None,
{
    String::from_utf8(b).ok()
}

pub open spec fn newline() -> u8 {
    10u8
}

pub open spec fn carriage_return() -> u8 {
    13u8
}

/// The start of the line that ends at `end`: one past the last newline before
/// `end`, or zero.
pub open spec fn line_start(b: Seq<u8>, end: int) -> int
    decreases end,
{
    if end <= 0 {
        0
    } else if b[end - 1] == newline() {
        end
    } else {
        line_start(b, end - 1)
    }
}

/// The bytes of the file without the newline that ends its last line, if any.
pub open spec fn unterminated(b: Seq<u8>) -> Seq<u8> {
    if b.len() > 0 && b.last() == newline() {
        b.drop_last()
    } else {
        b
    }
}

/// The last line of a non-empty file, as a line reader yields it: without its
/// newline, and without a carriage return that stood right before that newline.
pub open spec fn last_line(b: Seq<u8>) -> Seq<u8> {
    let body = unterminated(b);
    let line = body.subrange(line_start(body, body.len() as int), body.len() as int);
    if b.len() > 0 && b.last() == newline() && line.len() > 0 && line.last() == carriage_return() {
        line.drop_last()
    } else {
        line
    }
}

/// The outcome of looking at the log after a modify event.
#[derive(Clone, Copy, Debug, PartialEq, Eq, Structural)]
pub enum LogCheck {
    /// The file holds nothing.
    Empty,
    /// The last line is not valid UTF-8.
    Unreadable,
    /// The last line holds the marker: a patch cycle is due.
    Marker,
    /// The last line holds no marker.
    NoMarker,
}

/// The outcome owed for a last line that decoded to `decoded` (`None` where it
/// is not valid UTF-8).
pub open spec fn line_check(decoded: Option<Seq<char>>) -> LogCheck {
    match decoded {
        None => LogCheck::Unreadable,
        Some(line) => if occurs_in(line, VERIFICATION_MARKER@) {
            LogCheck::Marker
        } else {
            LogCheck::NoMarker
        },
    }
}

/// The outcome owed for a file holding `b`.
pub open spec fn log_check_of(b: Seq<u8>) -> LogCheck {
    if b.len() == 0 {
        LogCheck::Empty
    } else {
        line_check(utf8_decoded(last_line(b)))
    }
}

/// Copies the last line of `contents`, per [`last_line`].
pub fn last_line_of(contents: &Vec<u8>) -> (r: Vec<u8>)
    requires
        contents@.len() > 0,
    ensures
        r@ == last_line(contents@),
{
    let n = contents.len();
    let terminated = contents[n - 1] == 10u8;
    let end: usize = if terminated { n - 1 } else { n };
    assert(unterminated(contents@) == contents@.subrange(0, end as int));
    let ghost body = contents@.subrange(0, end as int);
    let mut start: usize = end;
    while start > 0 && contents[start - 1] != 10u8
        invariant
            start <= end <= n == contents@.len(),
            body == contents@.subrange(0, end as int),
            line_start(body, end as int) == line_start(body, start as int),
        decreases start,
    {
        start = start - 1;
    }
    let mut stop: usize = end;
    if terminated && stop > start && contents[stop - 1] == 13u8 {
        stop = stop - 1;
    }
    let mut line: Vec<u8> = Vec::new();
    let mut i: usize = start;
    while i < stop
        invariant
            start <= i <= stop <= end <= n == contents@.len(),
            line@ == contents@.subrange(start as int, i as int),
        decreases stop - i,
    {
        line.push(contents[i]);
        i = i + 1;
    }
    assert(line@ =~= last_line(contents@));
    line
}

/// Decides what a modify event on the log calls for, from the file's contents
/// at that moment.
pub fn check_log(contents: &Vec<u8>) -> (r: LogCheck)
    ensures
        r == log_check_of(contents@),
{
    if contents.len() == 0 {
        return LogCheck::Empty;
    }
    let line = last_line_of(contents);
    classify_line(decode_utf8(line))
}

/// Decides on the last line once it was decoded: `None` stands for a line that
/// is not valid UTF-8.
pub fn classify_line(decoded: Option<String>) -> (r: LogCheck)
    ensures
        r == line_check(
            match decoded {
                Some(s) => Some(s@),
                None => None,
            },
        ),
{
    match decoded {
        None => LogCheck::Unreadable,
        Some(text) => if str_contains(text.as_str(), VERIFICATION_MARKER) {
            LogCheck::Marker
        } else {
            LogCheck::NoMarker
        },
    }
}

/// Every end position after the last newline gives the same line start.
proof fn lemma_line_start_skips(b: Seq<u8>, from: int, end: int)
    requires
        0 <= from <= end <= b.len(),
        forall|k: int| from <= k < end ==> b[k] != newline(),
    ensures
        line_start(b, end) == line_start(b, from),
    decreases end - from,
{
    if end > from {
        lemma_line_start_skips(b, from, end - 1);
    }
}

/// Appending one complete line to a log that is empty or ends with a newline
/// makes that line the one inspected: the event triggers a patch cycle exactly
/// when the line decodes and holds the marker, and an unrelated line triggers
/// none.
pub proof fn lemma_appended_line_decides(prefix: Seq<u8>, line: Seq<u8>)
    requires
        prefix.len() == 0 || prefix.last() == newline(),
        forall|k: int| 0 <= k < line.len() ==> line[k] != newline(),
        line.len() == 0 || line.last() != carriage_return(),
    ensures
        last_line(prefix + line + seq![newline()]) == line,
        log_check_of(prefix + line + seq![newline()]) == line_check(utf8_decoded(line)),
{
    let b = prefix + line + seq![newline()];
    let body = prefix + line;
    assert(unterminated(b) =~= body);
    assert forall|k: int| prefix.len() <= k < body.len() implies body[k] != newline() by {
        assert(body[k] == line[k - prefix.len()]);
    }
    lemma_line_start_skips(body, prefix.len() as int, body.len() as int);
    if prefix.len() > 0 {
        assert(body[prefix.len() - 1] == prefix.last());
    }
    assert(line_start(body, body.len() as int) == prefix.len());
    assert(body.subrange(prefix.len() as int, body.len() as int) =~= line);
}

} // verus!
