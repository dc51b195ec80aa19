//! Commands for the host's trigger daemon: a pipe-separated line protocol
//! over a socket the embedding program supplies as a `TriggerPort`.

use vstd::prelude::*;

verus! {

use vstd::string::StringSliceAdditionalSpecFns;
use crate::ports::{ShmError, TriggerPort};
use crate::text;

/// The command arming monitor `monitor_id` for `duration` seconds with an
/// automatic cancel.
pub open spec fn spec_autocancel_command(
    monitor_id: u32,
    cause: Seq<u8>,
    text_: Seq<u8>,
    duration: u32,
) -> Seq<u8> {
    text::spec_u64_digits(monitor_id as nat) + "|on+".spec_bytes() + text::spec_u64_digits(
        duration as nat,
    ) + "|1|".spec_bytes() + cause + "|".spec_bytes() + text_ + "|".spec_bytes()
}

/// The command suspending or resuming a monitor's motion detection.
pub open spec fn spec_plain_command(monitor_id: u32, verb: Seq<u8>) -> Seq<u8> {
    text::spec_u64_digits(monitor_id as nat) + "|".spec_bytes() + verb
        + "|0|||".spec_bytes()
}

/// Index just past the last `b` in `s`, or 0 when there is none: where the
/// daemon reply's final field starts.
pub open spec fn spec_after_last_byte(s: Seq<u8>, b: u8) -> int
    decreases s.len(),
{
    if s.len() == 0 {
        0
    } else if s.last() == b {
        s.len() as int
    } else {
        spec_after_last_byte(s.drop_last(), b)
    }
}

proof fn lemma_after_last_byte_is(s: Seq<u8>, b: u8, i: int)
    requires
        0 <= i <= s.len(),
        forall|j: int| i <= j < s.len() ==> s[j] != b,
        i > 0 ==> s[i - 1] == b,
    ensures
        spec_after_last_byte(s, b) == i,
    decreases s.len(),
{
    if s.len() > 0 && s.last() != b {
        assert forall|j: int| i <= j < s.drop_last().len() implies s.drop_last()[j] != b by {
            assert(s.drop_last()[j] == s[j]);
        }
        if i > 0 {
            assert(s.drop_last()[i - 1] == s[i - 1]);
        }
        lemma_after_last_byte_is(s.drop_last(), b, i);
    }
}

/// The event id in a daemon reply: the text after the last pipe, trailing
/// whitespace trimmed, as a decimal `u32`.
pub open spec fn spec_parse_reply(reply: Seq<u8>) -> Option<u32> {
    let tail = reply.skip(spec_after_last_byte(reply, 124));
    match text::spec_parse_u64(text::spec_trim_end(tail)) {
        Some(n) => if n <= u32::MAX {
            Some(n as u32)
        } else {
            None
        },
        None => None,
    }
}

/// Parse a daemon reply into the event id it reports.
pub fn parse_trigger_reply(reply: &[u8]) -> (r: Option<u32>)
    ensures
        r == spec_parse_reply(reply@),
{
    let mut i: usize = reply.len();
    while i > 0 && reply[i - 1] != 124
        invariant
            i <= reply@.len(),
            forall|j: int| i <= j < reply@.len() ==> reply@[j] != 124,
        decreases i,
    {
        i = i - 1;
    }
    proof {
        lemma_after_last_byte_is(reply@, 124, i as int);
    }
    let tail = vstd::slice::slice_subrange(reply, i, reply.len());
    proof {
        assert(tail@ =~= reply@.skip(i as int));
    }
    let mut e: usize = tail.len();
    while e > 0 && text::byte_is_ws(tail[e - 1])
        invariant
            e <= tail@.len(),
            forall|j: int| e <= j < tail@.len() ==> text::is_ws(tail@[j]),
        decreases e,
    {
        e = e - 1;
    }
    let trimmed = vstd::slice::slice_subrange(tail, 0, e);
    proof {
        lemma_trim_end_take_here(tail@, e as int);
        assert(trimmed@ =~= tail@.take(e as int));
    }
    match text::parse_u64(trimmed) {
        Some(n) => if n <= 0xffff_ffffu64 {
            Some(n as u32)
        } else {
            None
        },
        None => None,
    }
}

proof fn lemma_trim_end_take_here(s: Seq<u8>, e: int)
    requires
        0 <= e <= s.len(),
        forall|j: int| e <= j < s.len() ==> text::is_ws(s[j]),
        e > 0 ==> !text::is_ws(s[e - 1]),
    ensures
        text::spec_trim_end(s) == s.take(e),
    decreases s.len(),
{
    if s.len() == 0 {
        assert(text::spec_trim_end(s) =~= s.take(e));
    } else if text::is_ws(s.last()) {
        assert(e < s.len());
        lemma_trim_end_take_here(s.drop_last(), e);
        assert(s.drop_last().take(e) =~= s.take(e));
    } else {
        assert(e == s.len());
        assert(text::spec_trim_end(s) =~= s.take(e));
    }
}

fn build_autocancel_command(monitor_id: u32, cause: &[u8], text_: &[u8], duration: u32) -> (r:
    Vec<u8>)
    ensures
        r@ == spec_autocancel_command(monitor_id, cause@, text_@, duration),
{
    let mut out: Vec<u8> = Vec::new();
    let m = text::u64_digits(monitor_id as u64);
    text::append_bytes(&mut out, m.as_slice());
    text::append_bytes(&mut out, "|on+".as_bytes());
    let d = text::u64_digits(duration as u64);
    text::append_bytes(&mut out, d.as_slice());
    text::append_bytes(&mut out, "|1|".as_bytes());
    text::append_bytes(&mut out, cause);
    text::append_bytes(&mut out, "|".as_bytes());
    text::append_bytes(&mut out, text_);
    text::append_bytes(&mut out, "|".as_bytes());
    proof {
        assert(out@ =~= spec_autocancel_command(monitor_id, cause@, text_@, duration));
    }
    out
}

/// Arm a monitor through the trigger daemon for `duration` seconds and
/// return the event id its reply names. The daemon caps the cause and text
/// fields, so over-long values are refused outright.
pub fn trigger_autocancel<T: TriggerPort>(
    port: &mut T,
    monitor_id: u32,
    cause: &str,
    text_: &str,
    duration: u32,
) -> (r: Result<u32, ShmError>)
    requires
        cause.spec_bytes().len() < 32,
        text_.spec_bytes().len() < 255,
    ensures
        final(port).sent() == old(port).sent() || final(port).sent() == old(
            port,
        ).sent().push(
            spec_autocancel_command(
                monitor_id,
                cause.spec_bytes(),
                text_.spec_bytes(),
                duration,
            ),
        ),
        r is Ok ==> final(port).sent() == old(port).sent().push(
            spec_autocancel_command(
                monitor_id,
                cause.spec_bytes(),
                text_.spec_bytes(),
                duration,
            ),
        ),
{
    let cmd = build_autocancel_command(monitor_id, cause.as_bytes(), text_.as_bytes(), duration);
    let reply = match port.send_command(cmd.as_slice(), true) {
        Ok(rp) => rp,
        Err(e) => {
            return Err(e);
        },
    };
    match parse_trigger_reply(reply.as_slice()) {
        Some(event_id) => Ok(event_id),
        None => Err(ShmError::Invalid),
    }
}

fn build_plain_command(monitor_id: u32, verb: &[u8]) -> (r: Vec<u8>)
    ensures
        r@ == spec_plain_command(monitor_id, verb@),
{
    let mut out: Vec<u8> = Vec::new();
    let m = text::u64_digits(monitor_id as u64);
    text::append_bytes(&mut out, m.as_slice());
    text::append_bytes(&mut out, "|".as_bytes());
    text::append_bytes(&mut out, verb);
    text::append_bytes(&mut out, "|0|||".as_bytes());
    proof {
        assert(out@ =~= spec_plain_command(monitor_id, verb@));
    }
    out
}

/// Suspend a monitor's own motion detection.
pub fn trigger_suspend<T: TriggerPort>(port: &mut T, monitor_id: u32) -> (r: Result<
    (),
    ShmError,
>)
    ensures
        r is Ok ==> final(port).sent() == old(port).sent().push(
            spec_plain_command(monitor_id, "disable".spec_bytes()),
        ),
        r is Err ==> final(port).sent() == old(port).sent(),
{
    let cmd = build_plain_command(monitor_id, "disable".as_bytes());
    match port.send_command(cmd.as_slice(), false) {
        Ok(_) => Ok(()),
        Err(e) => Err(e),
    }
}

/// Resume a monitor's own motion detection.
pub fn trigger_resume<T: TriggerPort>(port: &mut T, monitor_id: u32) -> (r: Result<
    (),
    ShmError,
>)
    ensures
        r is Ok ==> final(port).sent() == old(port).sent().push(
            spec_plain_command(monitor_id, "enable".spec_bytes()),
        ),
        r is Err ==> final(port).sent() == old(port).sent(),
{
    let cmd = build_plain_command(monitor_id, "enable".as_bytes());
    match port.send_command(cmd.as_slice(), false) {
        Ok(_) => Ok(()),
        Err(e) => Err(e),
    }
}

} // verus!
