//! The image-readiness event stream: reconnection with capped exponential
//! backoff, keep-alive filtering, and decoding of the base64 payload of a
//! "ready" event into the bytes of its archived record.
use vstd::prelude::*;
use vstd::arithmetic::power2::{pow2, lemma2_to64, lemma_pow2_strictly_increases};
use base64::Engine;
use crate::subtitle::{is_ws, is_whitespace};
use crate::text::string_from_chars;
use crate::text::{chars_of, str_eq};

verus! {

#[verifier::external_type_specification]
#[verifier::external_body]
pub struct ExDecodeError(base64::DecodeError);

/// The bytes that standard-alphabet, padded base64 text decodes to, or
/// `None` where it is not valid base64.
pub uninterp spec fn base64_decoded(text: Seq<char>) -> Option<Seq<u8>>;

/// `base64::engine::general_purpose::STANDARD.decode`: the decoded bytes,
/// or the crate's error where the text is not valid padded base64.
#[verifier::external_body]
fn base64_decode(text: &str) -> (r: Result<Vec<u8>, base64::DecodeError>)
    ensures
        match r {
            Ok(v) => base64_decoded(text@) == Some(v@),
            Err(_) => base64_decoded(text@) is None,
        },
{
    base64::engine::general_purpose::STANDARD.decode(text)
}

/// Connection attempts after which the stream gives up.
pub const MAX_RETRIES: u32 = 10;

/// Longest wait before reconnecting, in seconds.
pub const MAX_RECONNECT_DELAY_SECS: u64 = 30;

/// Reconnection state of the event stream.
#[derive(Debug, Clone, Copy, PartialEq, Eq, Structural)]
pub struct ImageEventState {
    /// Consecutive failures since the last successful open.
    pub retry_count: u32,
    /// Failures at which the stream ends.
    pub max_retries: u32,
    /// Whether a connection (receiver and task) is up.
    pub connected: bool,
}

/// Seconds to wait before connecting after `retry` failures: none at first,
/// then doubling from one second, at most `MAX_RECONNECT_DELAY_SECS`.
pub open spec fn reconnect_delay(retry: u32) -> u64 {
    if retry == 0 {
        0
    } else if pow2((retry - 1) as nat) < MAX_RECONNECT_DELAY_SECS {
        pow2((retry - 1) as nat) as u64
    } else {
        MAX_RECONNECT_DELAY_SECS
    }
}

/// One event from the connection task.
#[derive(Debug, Clone)]
pub enum SseEvent {
    /// The connection opened.
    Open,
    /// A message: its data, and whether its declared event type is "ready".
    Message { data: String, is_ready: bool },
    /// The connection failed.
    Error,
    /// The connection ended (or its channel closed).
    Closed,
}

/// What the stream does after an event.
#[derive(Debug, Clone)]
pub enum StreamStep {
    /// Nothing to deliver; wait for the next event (reconnecting first if
    /// the connection was dropped).
    Continue,
    /// Deliver the archived bytes of an image-ready record.
    Deliver(Vec<u8>),
    /// Give up: too many failures.
    End,
}

/// Whether message data carries nothing: empty, or a keep-alive marker.
pub open spec fn is_keepalive(data: Seq<char>) -> bool {
    data.len() == 0 || data == "keepalive"@ || data == "keep-alive"@
}

/// Index of the first non-whitespace character from `i` on (`s.len()` if none).
pub open spec fn trim_start_from(s: Seq<char>, i: int) -> int
    decreases s.len() - i,
{
    if i >= s.len() || i < 0 {
        s.len() as int
    } else if is_ws(s[i]) {
        trim_start_from(s, i + 1)
    } else {
        i
    }
}

/// End index after trimming trailing whitespace, not before `lo`.
pub open spec fn trim_end_to(s: Seq<char>, lo: int, j: int) -> int
    decreases j - lo,
{
    if j <= lo || j > s.len() {
        if j > s.len() { s.len() as int } else { lo }
    } else if is_ws(s[j - 1]) {
        trim_end_to(s, lo, j - 1)
    } else {
        j
    }
}

/// `s` without leading and trailing whitespace (`str::trim`).
pub open spec fn trimmed(s: Seq<char>) -> Seq<char> {
    let a = trim_start_from(s, 0);
    s.subrange(a, trim_end_to(s, a, s.len() as int))
}

/// What a message yields: nothing for keep-alives and non-"ready" events,
/// else the base64-decoded payload (nothing where it does not decode).
pub open spec fn message_payload(data: Seq<char>, is_ready: bool) -> Option<Seq<u8>> {
    if is_keepalive(data) || !is_ready {
        None
    } else {
        base64_decoded(trimmed(data))
    }
}

proof fn lemma_trim_start(s: Seq<char>, i: int)
    requires
        0 <= i <= s.len(),
    ensures
        i <= trim_start_from(s, i) <= s.len(),
    decreases s.len() - i,
{
    if i < s.len() && is_ws(s[i]) {
        lemma_trim_start(s, i + 1);
    }
}

proof fn lemma_trim_end(s: Seq<char>, lo: int, j: int)
    requires
        0 <= lo <= j <= s.len(),
    ensures
        lo <= trim_end_to(s, lo, j) <= j,
    decreases j - lo,
{
    if j > lo && is_ws(s[j - 1]) {
        lemma_trim_end(s, lo, j - 1);
    }
}

fn trim_exec(s: &str) -> (r: String)
    ensures
        r@ == trimmed(s@),
{
    let v = chars_of(s);
    let n = v.len();
    let mut a: usize = 0;
    while a < n && is_whitespace(v[a])
        invariant
            v@ == s@,
            n == v@.len(),
            a <= n,
            trim_start_from(v@, a as int) == trim_start_from(v@, 0),
        decreases n - a,
    {
        a += 1;
    }
    let mut b: usize = n;
    proof {
        lemma_trim_start(v@, 0);
    }
    while b > a && is_whitespace(v[b - 1])
        invariant
            v@ == s@,
            n == v@.len(),
            a <= b <= n,
            a == trim_start_from(v@, 0),
            trim_end_to(v@, a as int, b as int) == trim_end_to(v@, a as int, n as int),
        decreases b,
    {
        b -= 1;
    }
    let mut out: Vec<char> = Vec::new();
    let mut k = a;
    while k < b
        invariant
            a <= k <= b,
            b <= v@.len(),
            out@ == v@.subrange(a as int, k as int),
        decreases b - k,
    {
        out.push(v[k]);
        proof {
            assert(v@.subrange(a as int, k + 1) == v@.subrange(a as int, k as int).push(v@[k as int]));
        }
        k += 1;
    }
    string_from_chars(&out)
}

/// Decode the payload of a message: `None` for keep-alives, for events other
/// than "ready", and for data that is not valid base64.
pub fn handle_sse_message(data: &str, is_ready: bool) -> (r: Option<Vec<u8>>)
    ensures
        match message_payload(data@, is_ready) {
            None => r is None,
            Some(b) => r is Some && r->0@ == b,
        },
{
    let empty = chars_of(data).len() == 0;
    if str_eq(data, "keepalive") || str_eq(data, "keep-alive") || empty || !is_ready {
        return None;
    }
    let t = trim_exec(data);
    match base64_decode(t.as_str()) {
        Ok(bytes) => Some(bytes),
        Err(_) => None,
    }
}

impl ImageEventState {
    /// A disconnected stream with no failures and the default retry limit.
    pub fn new() -> (s: ImageEventState)
        ensures
            s.retry_count == 0,
            s.max_retries == MAX_RETRIES,
            !s.connected,
    {
        ImageEventState { retry_count: 0, max_retries: MAX_RETRIES, connected: false }
    }

    /// Seconds to wait before (re)connecting.
    pub fn reconnect_delay_secs(&self) -> (d: u64)
        ensures
            d == reconnect_delay(self.retry_count),
    {
        proof {
            lemma2_to64();
        }
        if self.retry_count == 0 {
            return 0;
        }
        let e = self.retry_count - 1;
        if e >= 5 {
            proof {
                lemma_pow2_ge_32(e as nat);
            }
            MAX_RECONNECT_DELAY_SECS
        } else {
            let mut p: u64 = 1;
            let mut k: u32 = 0;
            while k < e
                invariant
                    k <= e < 5,
                    p == pow2(k as nat),
                decreases e - k,
            {
                proof {
                    lemma2_to64();
                }
                p = p * 2;
                k += 1;
            }
            if p < MAX_RECONNECT_DELAY_SECS { p } else { MAX_RECONNECT_DELAY_SECS }
        }
    }

    /// A new connection was made.
    pub fn connection_started(&mut self)
        ensures
            *final(self) == (ImageEventState { connected: true, ..*old(self) }),
    {
        self.connected = true;
    }

    /// The connection failed or ended: count it; past the limit the stream
    /// ends (returns `true`), else the connection is dropped for a retry.
    pub fn handle_connection_error(&mut self) -> (give_up: bool)
        requires
            old(self).retry_count < u32::MAX,
        ensures
            final(self).retry_count == old(self).retry_count + 1,
            final(self).max_retries == old(self).max_retries,
            give_up == (final(self).retry_count >= old(self).max_retries),
            final(self).connected == (give_up && old(self).connected),
    {
        self.retry_count = self.retry_count + 1;
        if self.retry_count >= self.max_retries {
            return true;
        }
        self.connected = false;
        false
    }

    /// React to one event of the connection.
    pub fn on_event(&mut self, event: SseEvent) -> (step: StreamStep)
        requires
            old(self).retry_count < u32::MAX,
        ensures
            match event {
                SseEvent::Open => step is Continue && *final(self) == (ImageEventState { retry_count: 0, ..*old(self) }),
                SseEvent::Message { data, is_ready } => *final(self) == *old(self) && match message_payload(data@, is_ready) {
                    None => step is Continue,
                    Some(b) => step is Deliver && step->Deliver_0@ == b,
                },
                _ => {
                    &&& final(self).retry_count == old(self).retry_count + 1
                    &&& final(self).max_retries == old(self).max_retries
                    &&& (final(self).retry_count >= old(self).max_retries) ==> step is End && final(self).connected == old(self).connected
                    &&& (final(self).retry_count < old(self).max_retries) ==> step is Continue && !final(self).connected
                },
            },
    {
        match event {
            SseEvent::Open => {
                self.retry_count = 0;
                StreamStep::Continue
            },
            SseEvent::Message { data, is_ready } => {
                match handle_sse_message(data.as_str(), is_ready) {
                    Some(bytes) => StreamStep::Deliver(bytes),
                    None => StreamStep::Continue,
                }
            },
            SseEvent::Error => {
                if self.handle_connection_error() { StreamStep::End } else { StreamStep::Continue }
            },
            SseEvent::Closed => {
                if self.handle_connection_error() { StreamStep::End } else { StreamStep::Continue }
            },
        }
    }
}

proof fn lemma_pow2_ge_32(e: nat)
    requires
        e >= 5,
    ensures
        pow2(e) >= 32,
{
    lemma2_to64();
    if e > 5 {
        lemma_pow2_strictly_increases(5, e);
    }
}


/// The wait before reconnecting never exceeds thirty seconds, and it doubles
/// from one failure to the next until it reaches that cap.
pub proof fn lemma_backoff(retry: u32)
    ensures
        reconnect_delay(retry) <= MAX_RECONNECT_DELAY_SECS,
        retry == 1 ==> reconnect_delay(retry) == 1,
        1 <= retry < 5 ==> reconnect_delay((retry + 1) as u32) == 2 * reconnect_delay(retry),
        retry >= 6 ==> reconnect_delay(retry) == MAX_RECONNECT_DELAY_SECS,
{
    lemma2_to64();
    if retry >= 6 {
        lemma_pow2_ge_32((retry - 1) as nat);
    }
}

} // verus!
