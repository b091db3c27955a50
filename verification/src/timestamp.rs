//! Revision timestamps and the header line of cached wikitext files.
//!
//! A timestamp is kept as whole seconds and fractional nanoseconds since the
//! Unix epoch, together with its canonical RFC 3339 text. The first line of
//! every cached wikitext file is a small JSON object carrying that text.

use vstd::prelude::*;

verus! {

/// What a timestamp string parses to: its whole seconds since the Unix epoch
/// and the fractional nanoseconds, or nothing when the text is not a valid
/// RFC 3339 instant.
pub uninterp spec fn ts_of(s: Seq<char>) -> Option<(i64, i32)>;

/// The canonical text of the instant that the given timestamp string names.
pub uninterp spec fn ts_canon(s: Seq<char>) -> Seq<char>;

/// The last-revision instant of a page: seconds and nanoseconds since the
/// Unix epoch, with the canonical text form.
#[derive(Debug, PartialEq, Eq)]
pub struct WikiTimestamp {
    pub seconds: i64,
    pub nanos: i32,
    pub text: String,
}

impl Clone for WikiTimestamp {
    fn clone(&self) -> (r: Self)
        ensures
            r.seconds == self.seconds,
            r.nanos == self.nanos,
            r.text@ == self.text@,
    {
        WikiTimestamp { seconds: self.seconds, nanos: self.nanos, text: self.text.clone() }
    }
}

/// The smallest whole-second value a timestamp can carry.
pub const TS_MIN_SECOND: i64 = -377705023201;

/// The largest whole-second value a timestamp can carry.
pub const TS_MAX_SECOND: i64 = 253402207200;

/// Relies on `str::parse::<jiff::Timestamp>`, `Timestamp::as_second`,
/// `Timestamp::subsec_nanosecond` and `Timestamp::to_string`: parses an
/// RFC 3339 instant, converts it to seconds and nanoseconds, and renders the
/// canonical text, which parses back to the same instant and contains none
/// of the characters that JSON string framing escapes.
#[verifier::external_body]
pub fn parse_timestamp(s: &str) -> (r: Option<WikiTimestamp>)
    ensures
        r is Some <==> ts_of(s@) is Some,
        r is Some ==> {
            let ts = r->Some_0;
            &&& ts_of(s@) == Some((ts.seconds, ts.nanos))
            &&& ts.text@ == ts_canon(s@)
            &&& ts_of(ts.text@) == Some((ts.seconds, ts.nanos))
            &&& TS_MIN_SECOND <= ts.seconds <= TS_MAX_SECOND
            &&& -999999999 <= ts.nanos <= 999999999
            &&& forall|i: int|
                0 <= i < ts.text@.len() ==> ts.text@[i] != '"' && ts.text@[i] != '\\'
                    && ts.text@[i] != '\n' && ts.text@[i] != '\r'
        },
{
    let ts: jiff::Timestamp = match s.parse() {
        Ok(t) => t,
        Err(_) => return None,
    };
    Some(
        WikiTimestamp {
            seconds: ts.as_second(),
            nanos: ts.subsec_nanosecond(),
            text: ts.to_string(),
        },
    )
}

/// The header line of a cached wikitext file carrying the given timestamp
/// text: `{"timestamp":"..."}`.
pub open spec fn header_of(t: Seq<char>) -> Seq<char> {
    header_open() + t + header_close()
}

pub open spec fn header_open() -> Seq<char> {
    seq!['{', '"', 't', 'i', 'm', 'e', 's', 't', 'a', 'm', 'p', '"', ':', '"']
}

pub open spec fn header_close() -> Seq<char> {
    seq!['"', '}']
}

/// Writes the header line for a cached wikitext file.
pub fn make_header(ts: &WikiTimestamp) -> (r: String)
    ensures
        r@ == header_of(ts.text@),
{
    let mut out = String::new();
    out.append("{\"timestamp\":\"");
    out.append(ts.text.as_str());
    out.append("\"}");
    proof {
        reveal_strlit("{\"timestamp\":\"");
        reveal_strlit("\"}");
        assert(out@ =~= header_of(ts.text@));
    }
    out
}

/// What a header line holds: the timestamp text between the fixed opening
/// and closing frames, provided that text contains no quote.
pub open spec fn spec_parse_header(line: Seq<char>) -> Option<Seq<char>> {
    if line.len() >= 16 && line.subrange(0, 14) == header_open() && line.subrange(
        line.len() - 2,
        line.len() as int,
    ) == header_close() && (forall|i: int|
        14 <= i < line.len() - 2 ==> line[i] != '"') {
        Some(line.subrange(14, line.len() - 2))
    } else {
        None
    }
}

/// Reads the timestamp text back out of a header line.
pub fn parse_header(line: &str) -> (r: Option<String>)
    ensures
        match r {
            Some(t) => spec_parse_header(line@) == Some(t@),
            None => spec_parse_header(line@) is None,
        },
{
    let n = line.unicode_len();
    if n < 16 {
        return None;
    }
    let open: &str = "{\"timestamp\":\"";
    proof {
        reveal_strlit("{\"timestamp\":\"");
        assert(open@ =~= header_open());
    }
    let mut i: usize = 0;
    while i < 14
        invariant
            i <= 14,
            n == line@.len(),
            n >= 16,
            open@ == header_open(),
            open@.len() == 14,
            forall|j: int| 0 <= j < i ==> line@[j] == header_open()[j],
        decreases 14 - i,
    {
        if line.get_char(i) != open.get_char(i) {
            proof {
                assert(line@.subrange(0, 14) != header_open()) by {
                    assert(line@.subrange(0, 14)[i as int] != header_open()[i as int]);
                }
            }
            return None;
        }
        i = i + 1;
    }
    proof {
        assert(line@.subrange(0, 14) =~= header_open());
    }
    if line.get_char(n - 2) != '"' || line.get_char(n - 1) != '}' {
        proof {
            assert(line@.subrange(n - 2, n as int) != header_close()) by {
                if line@[n - 2] != '"' {
                    assert(line@.subrange(n - 2, n as int)[0] != header_close()[0]);
                } else {
                    assert(line@.subrange(n - 2, n as int)[1] != header_close()[1]);
                }
            }
        }
        return None;
    }
    proof {
        assert(line@.subrange(n - 2, n as int) =~= header_close());
    }
    let mut k: usize = 14;
    while k < n - 2
        invariant
            14 <= k <= n - 2,
            n == line@.len(),
            n >= 16,
            forall|j: int| 14 <= j < k ==> line@[j] != '"',
        decreases n - k,
    {
        if line.get_char(k) == '"' {
            return None;
        }
        k = k + 1;
    }
    let t = line.substring_char(14, n - 2);
    Some(t.to_owned())
}

/// A timestamp written into a header line is read back unchanged, provided
/// its text contains no quote, as the canonical form never does.
pub proof fn lemma_header_round_trip(t: Seq<char>)
    requires
        forall|i: int| 0 <= i < t.len() ==> t[i] != '"',
    ensures
        spec_parse_header(header_of(t)) == Some(t),
{
    let line = header_of(t);
    assert(line.subrange(0, 14) =~= header_open());
    assert(line.subrange(line.len() - 2, line.len() as int) =~= header_close());
    assert(forall|i: int| 14 <= i < line.len() - 2 ==> line[i] == t[i - 14] && line[i] != '"');
    assert(line.subrange(14, line.len() - 2) =~= t);
}

/// The whole span of an instant in nanoseconds since the Unix epoch.
pub open spec fn ts_total_nanos(seconds: i64, nanos: i32) -> int {
    seconds * 1000000000 + nanos
}

/// The instant one minute later, held back at the largest representable
/// instant, as a saturating addition behaves.
pub open spec fn spec_plus_minute(total: int) -> int {
    if total + 60000000000 > ts_max_total() {
        ts_max_total()
    } else {
        total + 60000000000
    }
}

pub open spec fn ts_max_total() -> int {
    TS_MAX_SECOND * 1000000000 + 999999999
}

/// Decides whether the patched cutoff still covers a page: true when the
/// page's last revision, pushed one minute forward for clock skew, is not
/// strictly after the cutoff.
pub fn revision_within_cutoff(revision: &WikiTimestamp, cutoff: &WikiTimestamp) -> (r: bool)
    requires
        TS_MIN_SECOND <= revision.seconds <= TS_MAX_SECOND,
        -999999999 <= revision.nanos <= 999999999,
        TS_MIN_SECOND <= cutoff.seconds <= TS_MAX_SECOND,
        -999999999 <= cutoff.nanos <= 999999999,
    ensures
        r == (spec_plus_minute(ts_total_nanos(revision.seconds, revision.nanos))
            <= ts_total_nanos(cutoff.seconds, cutoff.nanos)),
{
    let rev_total: i128 = (revision.seconds as i128) * 1000000000 + (revision.nanos as i128);
    let cut_total: i128 = (cutoff.seconds as i128) * 1000000000 + (cutoff.nanos as i128);
    let max_total: i128 = (TS_MAX_SECOND as i128) * 1000000000 + 999999999;
    let bumped: i128 = if rev_total + 60000000000 > max_total {
        max_total
    } else {
        rev_total + 60000000000
    };
    bumped <= cut_total
}

} // verus!
