//! Reading a remote audio stream by byte ranges: the request for an offset, whether the answer
//! really starts there, the stream length it implies, seek targets, and which failures count as
//! timeouts.
use vstd::prelude::*;
use crate::text::{chars_of, string_of, push_str, extend_all, decimal, decimal_spec, find_from, find_seq, ascii_lower, to_ascii_lower};

verus! {

/// The `Range` header asking for everything from `offset` on.
pub open spec fn range_spec(offset: u64) -> Seq<char> {
    "bytes="@ + decimal_spec(offset as nat) + "-"@
}

/// The `Range` header value for the bytes from `offset` on.
pub fn range_header(offset: u64) -> (r: String)
    ensures
        r@ == range_spec(offset),
{
    let mut out = chars_of("bytes=");
    extend_all(&mut out, &decimal(offset));
    push_str(&mut out, "-");
    string_of(&out)
}

/// How the answer to a range request turns out: from offset 0 any success will do; from a later
/// offset the answer must be a partial one (206) whose `Content-Range` starts at that offset.
/// `status_text` is how the status is written in messages.
pub open spec fn range_answer_spec(offset: u64, status: u16, status_text: Seq<char>, content_range: Option<Seq<char>>) -> Result<(), Seq<char>> {
    if offset > 0 && status != 206 {
        Err("stream ignored byte range at offset "@ + decimal_spec(offset as nat) + " (HTTP "@ + status_text + ")"@)
    } else if !(200 <= status <= 299) {
        Err("stream returned HTTP "@ + status_text)
    } else if offset > 0 {
        match content_range {
            None => Err("range response omitted Content-Range"@),
            Some(cr) => {
                let want = "bytes "@ + decimal_spec(offset as nat) + "-"@;
                if cr.len() >= want.len() && cr.take(want.len() as int) == want {
                    Ok(())
                } else {
                    Err("stream returned an unexpected byte range: "@ + cr)
                }
            },
        }
    } else {
        Ok(())
    }
}

/// Checks the answer to a range request.
pub fn check_range_answer(offset: u64, status: u16, status_text: &str, content_range: Option<&str>) -> (r: Result<(), String>)
    ensures
        match r {
            Ok(()) => range_answer_spec(offset, status, status_text@, match content_range {
                Some(c) => Some(c@),
                None => None,
            }) is Ok,
            Err(e) => range_answer_spec(offset, status, status_text@, match content_range {
                Some(c) => Some(c@),
                None => None,
            }) == Err::<(), Seq<char>>(e@),
        },
{
    if offset > 0 && status != 206 {
        let mut m = chars_of("stream ignored byte range at offset ");
        extend_all(&mut m, &decimal(offset));
        push_str(&mut m, " (HTTP ");
        push_str(&mut m, status_text);
        push_str(&mut m, ")");
        return Err(string_of(&m));
    }
    if !(200 <= status && status <= 299) {
        let mut m = chars_of("stream returned HTTP ");
        push_str(&mut m, status_text);
        return Err(string_of(&m));
    }
    if offset > 0 {
        match content_range {
            None => Err(string_of(&chars_of("range response omitted Content-Range"))),
            Some(cr) => {
                let mut want = chars_of("bytes ");
                extend_all(&mut want, &decimal(offset));
                push_str(&mut want, "-");
                let c = chars_of(cr);
                let starts = if c.len() >= want.len() {
                    let head = crate::text::slice_vec(&c, 0, want.len());
                    assert(head@ =~= c@.take(want@.len() as int));
                    crate::text::chars_eq(&head, &want)
                } else {
                    false
                };
                if starts {
                    Ok(())
                } else {
                    let mut m = chars_of("stream returned an unexpected byte range: ");
                    push_str(&mut m, cr);
                    Err(string_of(&m))
                }
            },
        }
    } else {
        Ok(())
    }
}

/// The stream length after a range answer from `offset`: the offset plus the answer's length
/// when it states one (a partial answer's length is what remains), else the length known before.
pub fn length_after(offset: u64, content_length: Option<u64>, previous: Option<u64>) -> (r: Option<u64>)
    requires
        content_length matches Some(n) ==> offset + n <= u64::MAX,
    ensures
        r == match content_length {
            Some(n) => Some((offset + n) as u64),
            None => previous,
        },
{
    match content_length {
        Some(n) => Some(offset + n),
        None => previous,
    }
}

/// Where a seek is asked to go.
#[derive(Debug, Clone, Copy, PartialEq, Eq, Structural)]
pub enum SeekTarget {
    Start(u64),
    End(i64),
    Current(i64),
}

/// An offset read as a signed 64-bit number (`as i64`: offsets past `i64::MAX` wrap to negative
/// values).
pub open spec fn signed(v: u64) -> int {
    if v <= i64::MAX {
        v as int
    } else {
        v - 0x1_0000_0000_0000_0000
    }
}

/// The offset a seek lands on: from the start, from the end (0 when the length is unknown) or
/// from the current position, in signed 64-bit arithmetic; never before the start.
pub open spec fn seek_spec(target: SeekTarget, pos: u64, len: Option<u64>) -> int {
    let t: int = match target {
        SeekTarget::Start(n) => signed(n),
        SeekTarget::End(n) => match len {
            Some(l) => signed(l) + n,
            None => 0,
        },
        SeekTarget::Current(n) => signed(pos) + n,
    };
    if t < 0 {
        0
    } else {
        t
    }
}

/// The sum a seek target takes does not overflow 64-bit signed arithmetic.
pub open spec fn seek_computable(target: SeekTarget, pos: u64, len: Option<u64>) -> bool {
    match target {
        SeekTarget::Start(_) => true,
        SeekTarget::End(n) => match len {
            Some(l) => i64::MIN <= signed(l) + n <= i64::MAX,
            None => true,
        },
        SeekTarget::Current(n) => i64::MIN <= signed(pos) + n <= i64::MAX,
    }
}

fn as_signed(v: u64) -> (r: i64)
    ensures
        r == signed(v),
{
    if v <= i64::MAX as u64 {
        v as i64
    } else {
        let below = v - 9_223_372_036_854_775_808u64;
        (below as i64) - 9_223_372_036_854_775_807i64 - 1
    }
}

/// The offset a seek lands on.
pub fn seek_offset(target: SeekTarget, pos: u64, len: Option<u64>) -> (r: u64)
    requires
        seek_computable(target, pos, len),
    ensures
        r == seek_spec(target, pos, len),
{
    let t: i64 = match target {
        SeekTarget::Start(n) => as_signed(n),
        SeekTarget::End(n) => match len {
            Some(l) => as_signed(l) + n,
            None => 0,
        },
        SeekTarget::Current(n) => as_signed(pos) + n,
    };
    if t < 0 {
        0
    } else {
        t as u64
    }
}

/// Seconds allowed to connect to a stream's server.
pub const HTTP_CONNECT_TIMEOUT_SECS: u64 = 8;
/// Seconds allowed for a whole stream request.
pub const HTTP_READ_TIMEOUT_SECS: u64 = 15;

/// How reading a stream failed, as far as giving up on it depends on it.
#[derive(Debug, Clone, Copy, PartialEq, Eq, Structural)]
pub enum StreamFailure {
    /// The stream ended before the decoder expected it to.
    UnexpectedEof,
    TimedOut,
    ConnectionReset,
    ConnectionAborted,
    BrokenPipe,
    /// Any other I/O error.
    OtherIo,
    /// A failure that is not an I/O error (the data could not be decoded).
    Decode,
}

/// Whether the stream is abandoned after a failure rather than read on: the connection ended,
/// broke or timed out.
pub fn is_unrecoverable_stream_error(err: &StreamFailure) -> (r: bool)
    ensures
        r == !(*err == StreamFailure::OtherIo || *err == StreamFailure::Decode),
{
    match err {
        StreamFailure::UnexpectedEof => true,
        StreamFailure::TimedOut => true,
        StreamFailure::ConnectionReset => true,
        StreamFailure::ConnectionAborted => true,
        StreamFailure::BrokenPipe => true,
        StreamFailure::OtherIo => false,
        StreamFailure::Decode => false,
    }
}

/// How many consecutive failed packets a decoder skips before it gives the track up (a corrupt
/// stream may report errors forever instead of ending).
pub const MAX_CONSECUTIVE_DECODE_ERRORS: usize = 64;

/// What the decoder does after a packet failed to read or decode.
#[derive(Debug, Clone, Copy, PartialEq, Eq, Structural)]
pub enum DecodeStep {
    /// Skip the packet and go on; this many failures in a row so far.
    Skip(usize),
    /// The track is exhausted.
    GiveUp,
}

/// After a failed packet, with `consecutive` failures in a row before it: a broken connection
/// ends the track at once; another failure is skipped unless it makes more than
/// [`MAX_CONSECUTIVE_DECODE_ERRORS`] in a row. (A packet that decodes sets the count back to 0.)
pub fn after_decode_error(consecutive: usize, failure: StreamFailure) -> (r: DecodeStep)
    ensures
        r == if !(failure == StreamFailure::OtherIo || failure == StreamFailure::Decode) {
            DecodeStep::GiveUp
        } else if consecutive + 1 > MAX_CONSECUTIVE_DECODE_ERRORS {
            DecodeStep::GiveUp
        } else {
            DecodeStep::Skip((consecutive + 1) as usize)
        },
{
    if is_unrecoverable_stream_error(&failure) {
        DecodeStep::GiveUp
    } else if consecutive >= MAX_CONSECUTIVE_DECODE_ERRORS {
        DecodeStep::GiveUp
    } else {
        DecodeStep::Skip(consecutive + 1)
    }
}

/// A stream can be sought when its length is known.
pub fn is_seekable(len: Option<u64>) -> (r: bool)
    ensures
        r == (len is Some),
{
    len.is_some()
}

/// An error message that reports a timeout.
pub open spec fn timeout_message(msg: Seq<char>) -> bool {
    let low = msg.map_values(|c: char| ascii_lower(c));
    find_from(low, "timed out"@, 0) is Some || find_from(low, "timeout"@, 0) is Some
}

/// Whether a transport error message reports a timeout (compared in ASCII lowercase), so the read
/// fails as timed out rather than as another error.
pub fn is_timeout_message(msg: &str) -> (r: bool)
    ensures
        r == timeout_message(msg@),
{
    let cs = chars_of(msg);
    let mut low: Vec<char> = Vec::new();
    let mut i: usize = 0;
    while i < cs.len()
        invariant
            i <= cs@.len(),
            low@ == cs@.take(i as int).map_values(|c: char| ascii_lower(c)),
        decreases cs@.len() - i,
    {
        low.push(to_ascii_lower(cs[i]));
        assert(low@ =~= cs@.take(i + 1).map_values(|c: char| ascii_lower(c)));
        i = i + 1;
    }
    assert(cs@.take(cs@.len() as int) =~= cs@);
    find_seq(&low, &chars_of("timed out"), 0).is_some() || find_seq(&low, &chars_of("timeout"), 0).is_some()
}

} // verus!
