//! What goes over the relay: tagged payloads `prefix + payload + "[END DATA]"`
//! scanned out of response bodies, the relay's URLs, and the retry policy of
//! the polling loops.
use crate::text::{
    views, chars_of, find_from, find_spec, lemma_find_spec_result, string_of, trim, trimmed_slice,
};
use vstd::prelude::*;

verus! {

pub const KYBER_PREFIX: &'static str = "KYBER_PUBLIC_KEY:";

pub const CIPHERTEXT_PREFIX: &'static str = "KYBER_PUBLIC_KEY:CIPHERTEXT:";

pub const DILITHIUM_PREFIX: &'static str = "DILITHIUM_PUBLIC_KEY:";

pub const EDDSA_PREFIX: &'static str = "EDDSA_PUBLIC_KEY:";

pub const ECDH_PREFIX: &'static str = "ECDH_PUBLIC_KEY:";

pub const END_DATA: &'static str = "[END DATA]";

/// Attempts that a presence check makes after its first one before it gives up.
pub const KEY_DISCOVERY_RETRIES: u64 = 3;

/// Seconds between two polls of the relay.
pub const RETRY_DELAY_SECS: u64 = 2;

pub open spec fn end_data() -> Seq<char> {
    "[END DATA]"@
}

/// The texts between each `open` marker and the first `close` marker after
/// it, trimmed, scanning from `start` and going on after each `close`.
pub open spec fn delimited_from(h: Seq<char>, open: Seq<char>, close: Seq<char>, start: int) -> Seq<
    Seq<char>,
>
    decreases h.len() + 1 - start,
{
    match find_spec(h, open, start) {
        None => seq![],
        Some(i) => match find_spec(h, close, i + open.len()) {
            None => seq![],
            Some(j) => if start < j + close.len() <= h.len() + 1 {
                seq![trim(h.subrange(i + open.len(), j))] + delimited_from(
                    h,
                    open,
                    close,
                    j + close.len(),
                )
            } else {
                seq![]
            },
        },
    }
}

/// The first text between `open` and the next `close`, untrimmed.
pub open spec fn first_delimited(h: Seq<char>, open: Seq<char>, close: Seq<char>) -> Option<
    Seq<char>,
> {
    match find_spec(h, open, 0) {
        None => None,
        Some(i) => match find_spec(h, close, i + open.len()) {
            None => None,
            Some(j) => Some(h.subrange(i + open.len(), j)),
        },
    }
}

/// Every trimmed text between an `open` and the next `close` marker in `body`.
pub fn all_delimited(body: &str, open: &str, close: &str) -> (r: Vec<String>)
    requires
        close@.len() > 0,
    ensures
        views(r@) == delimited_from(body@, open@, close@, 0),
{
    let h = chars_of(body);
    let o = chars_of(open);
    let c = chars_of(close);
    let mut out: Vec<String> = Vec::new();
    let mut pos: usize = 0;
    loop
        invariant
            h@ == body@,
            o@ == open@,
            c@ == close@,
            c@.len() > 0,
            pos <= h@.len(),
            views(out@) + delimited_from(h@, o@, c@, pos as int) == delimited_from(
                h@,
                o@,
                c@,
                0,
            ),
        decreases h@.len() - pos,
    {
        let i = match find_from(&h, &o, pos) {
            Some(i) => i,
            None => {
                assert(views(out@) =~= views(out@) + delimited_from(h@, o@, c@, pos as int));
                return out;
            },
        };
        proof {
            lemma_find_spec_result(h@, o@, pos as int);
        }
        assert(i + o.len() <= h.len());
        let from = i + o.len();
        let j = match find_from(&h, &c, from) {
            Some(j) => j,
            None => {
                assert(views(out@) =~= views(out@) + delimited_from(h@, o@, c@, pos as int));
                return out;
            },
        };
        proof {
            lemma_find_spec_result(h@, c@, from as int);
        }
        assert(j + c.len() <= h.len());
        let piece = trimmed_slice(&h, from, j);
        let s = string_of(piece.as_slice());
        let ghost before = out@;
        out.push(s);
        proof {
            assert(views(out@) =~= views(before) + seq![s@]);
            assert(views(out@) + delimited_from(h@, o@, c@, j + c@.len()) =~= views(before)
                + delimited_from(h@, o@, c@, pos as int));
        }
        pos = j + c.len();
    }
}

/// The first text between `open` and the next `close` in `body`.
pub fn first_between(body: &str, open: &str, close: &str) -> (r: Option<String>)
    ensures
        match r {
            Some(s) => first_delimited(body@, open@, close@) == Some(s@),
            None => first_delimited(body@, open@, close@) is None,
        },
{
    let h = chars_of(body);
    let o = chars_of(open);
    let c = chars_of(close);
    let i = match find_from(&h, &o, 0) {
        Some(i) => i,
        None => return None,
    };
    proof {
        lemma_find_spec_result(h@, o@, 0);
    }
    assert(i + o.len() <= h.len());
    let from = i + o.len();
    let j = match find_from(&h, &c, from) {
        Some(j) => j,
        None => return None,
    };
    proof {
        lemma_find_spec_result(h@, c@, from as int);
    }
    let piece = crate::text::slice_chars(&h, from, j);
    Some(string_of(piece.as_slice()))
}

/// Every trimmed payload tagged with `prefix` in a relay body.
pub fn all_tagged(body: &str, prefix: &str) -> (r: Vec<String>)
    ensures
        views(r@) == delimited_from(body@, prefix@, end_data(), 0),
{
    proof {
        reveal_strlit("[END DATA]");
    }
    all_delimited(body, prefix, END_DATA)
}

/// The first payload tagged with `prefix` in a relay body.
pub fn first_tagged(body: &str, prefix: &str) -> (r: Option<String>)
    ensures
        match r {
            Some(s) => first_delimited(body@, prefix@, end_data()) == Some(s@),
            None => first_delimited(body@, prefix@, end_data()) is None,
        },
{
    first_between(body, prefix, END_DATA)
}

/// `prefix + payload + "[END DATA]"`.
pub fn tagged_message(prefix: &str, payload: &str) -> (r: String)
    ensures
        r@ == prefix@ + payload@ + end_data(),
{
    let mut out = String::from_str(prefix);
    out.append(payload);
    out.append(END_DATA);
    out
}

/// The relay address that a poll of `room_id` reads.
pub fn messages_url(server_url: &str, room_id: &str) -> (r: String)
    ensures
        r@ == server_url@ + "/messages?room_id="@ + room_id@,
{
    let mut out = String::from_str(server_url);
    out.append("/messages?room_id=");
    out.append(room_id);
    out
}

/// The relay address that a publish posts to.
pub fn send_url(server_url: &str) -> (r: String)
    ensures
        r@ == server_url@ + "/send"@,
{
    let mut out = String::from_str(server_url);
    out.append("/send");
    out
}

/// How one poll of the relay went.
#[derive(Clone, Copy, Debug, PartialEq, Eq, Structural)]
pub enum PollOutcome {
    /// The request or the reading of its body failed.
    TransportFailure,
    /// The body holds nothing that the caller looks for.
    NothingFound,
    /// The body holds what the caller looks for.
    Found,
}

/// What a polling loop does next.
#[derive(Clone, Copy, Debug, PartialEq, Eq, Structural)]
pub enum PollAction {
    Done,
    RetryAfterDelay,
    GiveUp,
}

/// How many failed polls a loop tolerates: a bound for presence checks, none
/// for waits on the peer.
#[derive(Clone, Copy, Debug, PartialEq, Eq, Structural)]
pub struct RetryPolicy {
    pub max_retries: Option<u64>,
}

impl RetryPolicy {
    /// Gives up after `max_retries` retries.
    pub fn bounded(max_retries: u64) -> (r: RetryPolicy)
        ensures
            r.max_retries == Some(max_retries),
    {
        RetryPolicy { max_retries: Some(max_retries) }
    }

    /// Never gives up.
    pub fn unbounded() -> (r: RetryPolicy)
        ensures
            r.max_retries is None,
    {
        RetryPolicy { max_retries: None }
    }

    /// After a poll with `failures` failed polls before it: the new count of
    /// failures and what to do. A failure counts one more; the loop gives up
    /// once the count passes the bound.
    pub fn next_step(&self, failures: u64, outcome: PollOutcome) -> (r: (u64, PollAction))
        ensures
            outcome == PollOutcome::Found ==> r == (failures, PollAction::Done),
            outcome != PollOutcome::Found ==> {
                &&& r.0 == (if failures < u64::MAX {
                    failures + 1
                } else {
                    failures as int
                })
                &&& r.1 == (match self.max_retries {
                    Some(m) => if r.0 > m {
                        PollAction::GiveUp
                    } else {
                        PollAction::RetryAfterDelay
                    },
                    None => PollAction::RetryAfterDelay,
                })
            },
    {
        if outcome == PollOutcome::Found {
            return (failures, PollAction::Done);
        }
        let count = if failures < u64::MAX {
            failures + 1
        } else {
            failures
        };
        match self.max_retries {
            Some(m) => if count > m {
                (count, PollAction::GiveUp)
            } else {
                (count, PollAction::RetryAfterDelay)
            },
            None => (count, PollAction::RetryAfterDelay),
        }
    }
}

} // verus!
