use vstd::prelude::*;
use std::fmt::Write;

verus! {

/// A point in time with the offset of the clock that shows it: seconds and
/// nanoseconds since the start of 1970 in universal time, and the seconds by
/// which the clock is ahead of universal time.
#[derive(Clone, Copy, Debug, PartialEq, Eq, Structural)]
pub struct Moment {
    pub seconds: i64,
    pub nanoseconds: u32,
    pub offset: i32,
}

/// What reading `text` by the format `format` gives: a moment, or the
/// sentence that says why it cannot be read.
pub uninterp spec fn moment_read(text: Seq<char>, format: Seq<char>) -> Result<Moment, Seq<char>>;

/// The text of a moment in the format `format`, if the moment is one that
/// the calendar holds and the format is one that can be written.
pub uninterp spec fn moment_written(
    seconds: int,
    nanoseconds: int,
    offset: int,
    format: Seq<char>,
) -> Option<Seq<char>>;

/// Reads `text` with `chrono::DateTime::parse_from_str` and hands on the
/// time stamp and the offset of what was read, or the text of the error that
/// came back. The call depends on its arguments alone.
#[verifier::external_body]
pub(crate) fn read_moment(text: &str, format: &str) -> (r: Result<Moment, String>)
    ensures
        match r {
            Ok(moment) => moment_read(text@, format@) == Ok::<Moment, Seq<char>>(moment),
            Err(reason) => moment_read(text@, format@) == Err::<Moment, Seq<char>>(reason@),
        },
{
    match chrono::DateTime::parse_from_str(text, format) {
        Ok(read) => Ok(
            Moment {
                seconds: read.timestamp(),
                nanoseconds: read.timestamp_subsec_nanos(),
                offset: read.offset().local_minus_utc(),
            },
        ),
        Err(error) => Err(error.to_string()),
    }
}

/// Makes the date and time of `moment` with `chrono::FixedOffset::east_opt`
/// and `chrono::DateTime::from_timestamp`, and writes it with
/// `chrono::DateTime::format`. Nothing comes back where the offset or the
/// time stamp is out of range or the format cannot be written. The calls
/// depend on their arguments alone.
#[verifier::external_body]
pub(crate) fn write_moment(moment: &Moment, format: &str) -> (r: Option<String>)
    ensures
        r is Some == moment_written(
            moment.seconds as int,
            moment.nanoseconds as int,
            moment.offset as int,
            format@,
        ) is Some,
        r matches Some(text) ==> moment_written(
            moment.seconds as int,
            moment.nanoseconds as int,
            moment.offset as int,
            format@,
        ) == Some(text@),
{
    let offset = chrono::FixedOffset::east_opt(moment.offset)?;
    let universal = chrono::DateTime::from_timestamp(moment.seconds, moment.nanoseconds)?;
    let mut text = String::new();
    match write!(text, "{}", universal.with_timezone(&offset).format(format)) {
        Ok(_) => Some(text),
        Err(_) => None,
    }
}

} // verus!
