//! Per-model debug log entries.

use vstd::prelude::*;
use crate::json::option_text;
use crate::numbers::{
    decimal, law_how_numbers_are_written, law_padding, to_decimal, to_decimal_padded, zero_padded,
};
use crate::text::cat3;

verus! {

/// One line in a per-model debug log. Documents are held as JSON texts.
#[derive(Debug)]
pub struct DebugLogEntry {
    /// Unix timestamp with milliseconds, e.g. `"1721059200.123"`.
    pub ts: String,
    /// Correlates the request and response lines.
    pub request_id: String,
    /// The resolved model name.
    pub model: String,
    /// The name that the request was routed by.
    pub alias: Option<String>,
    /// The backend instance that handled this request.
    pub instance_id: Option<String>,
    /// `"request"` or `"response"`.
    pub dir: String,
    /// Whether the response is streamed.
    pub stream: Option<bool>,
    /// The exact body forwarded to or received from the backend.
    pub body: Option<String>,
    /// Token usage.
    pub usage: Option<String>,
    /// Wall-clock milliseconds.
    pub duration_ms: Option<u64>,
    /// What went wrong.
    pub error: Option<String>,
}

/// An entry in terms of texts.
pub struct EntryView {
    pub ts: Seq<char>,
    pub request_id: Seq<char>,
    pub model: Seq<char>,
    pub alias: Option<Seq<char>>,
    pub instance_id: Option<Seq<char>>,
    pub dir: Seq<char>,
    pub stream: Option<bool>,
    pub body: Option<Seq<char>>,
    pub usage: Option<Seq<char>>,
    pub duration_ms: Option<u64>,
    pub error: Option<Seq<char>>,
}

impl View for DebugLogEntry {
    type V = EntryView;

    open spec fn view(&self) -> EntryView {
        EntryView {
            ts: self.ts@,
            request_id: self.request_id@,
            model: self.model@,
            alias: option_text(self.alias),
            instance_id: option_text(self.instance_id),
            dir: self.dir@,
            stream: self.stream,
            body: option_text(self.body),
            usage: option_text(self.usage),
            duration_ms: self.duration_ms,
            error: option_text(self.error),
        }
    }
}

/// Seconds and milliseconds since the Unix epoch, as a text.
pub open spec fn stamp(secs: u64, millis: u32) -> Seq<char> {
    decimal(secs as nat) + "."@ + zero_padded(decimal(millis as nat), 3)
}

/// A point in time as a Unix timestamp with milliseconds, e.g.
/// `"1721059200.123"`.
pub fn timestamp(secs: u64, millis: u32) -> (r: String)
    requires
        millis < 1000,
    ensures
        r@ == stamp(secs, millis),
{
    let whole = to_decimal(secs);
    let fraction = to_decimal_padded(millis as u64, 3);
    cat3(whole.as_str(), ".", fraction.as_str())
}

/// Calls `std::time::SystemTime::elapsed` on the Unix epoch: the seconds since
/// then, and the milliseconds beyond them. A clock that is set before the epoch
/// gives zero. Of the time itself nothing is said, only that the milliseconds
/// are less than a second.
#[verifier::external_body]
fn since_epoch() -> (r: (u64, u32))
    ensures
        r.1 < 1000,
{
    let elapsed = std::time::UNIX_EPOCH.elapsed().unwrap_or_default();
    (elapsed.as_secs(), elapsed.subsec_millis())
}

/// The current time as a Unix timestamp with milliseconds.
pub fn ts_now() -> (r: String)
    ensures
        exists|secs: u64, millis: u32| millis < 1000 && r@ == #[trigger] stamp(secs, millis),
{
    let (secs, millis) = since_epoch();
    timestamp(secs, millis)
}

/// A stamp gives the seconds, a dot and three digits for the milliseconds.
pub proof fn law_stamps(secs: u64, millis: u32)
    requires
        millis < 1000,
    ensures
        stamp(secs, millis) == decimal(secs as nat) + seq!['.'] + seq![
            (48 + millis / 100) as char,
            (48 + millis / 10 % 10) as char,
            (48 + millis % 10) as char,
        ],
{
    reveal_strlit(".");
    let n = millis as nat;
    law_how_numbers_are_written(n);
    law_how_numbers_are_written(n / 10);
    law_how_numbers_are_written(n / 100);
    law_padding(decimal(n), 3);
    let three = seq![
        (48 + millis / 100) as char,
        (48 + millis / 10 % 10) as char,
        (48 + millis % 10) as char,
    ];
    assert("."@ =~= seq!['.']);
    assert(n / 10 / 10 == n / 100);
    if n < 10 {
        assert(decimal(n).len() == 1);
    } else if n < 100 {
        assert(decimal(n / 10).len() == 1);
        assert(decimal(n).len() == 2);
    } else {
        assert(decimal(n / 100).len() == 1);
        assert(decimal(n / 10).len() == 2);
        assert(decimal(n).len() == 3);
    }
    assert(zero_padded(decimal(n), 3) =~= three);
}

} // verus!
