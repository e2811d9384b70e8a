//! The incremental message poll and its cursor.
//!
//! Each poll asks for the conversation events past a sequence cursor.
//! The cursor starts where the caller says (or at zero), advances to the
//! highest sequence number a batch shows — and only when that exceeds
//! it, so an out-of-order batch never moves it back. A transport error
//! leaves the cursor where it was and carries a message out; nothing in
//! this state ever ends the loop, which stops only with the process.

use vstd::prelude::*;
use crate::codec::SocketResponse;
use crate::ipc::{IpcError, spec_ipc_message};
use crate::json::{JsonVal, JsonValue, copy_items, spec_as_int, spec_get, vals_view};

verus! {

/// The events a poll reply carries, in the order the backend sent them.
pub open spec fn spec_events_of(data: Option<JsonValue>) -> Seq<JsonVal> {
    match data {
        Some(d) => match spec_get(d@, "events"@) {
            Some(JsonVal::Arr(items)) => items,
            _ => Seq::empty(),
        },
        None => Seq::empty(),
    }
}

/// The sequence number one event carries, when it carries one.
pub open spec fn spec_seq_of(event: JsonVal) -> Option<i64> {
    spec_as_int(match spec_get(event, "sequence"@) {
        Some(v) => v,
        None => JsonVal::Null,
    })
}

/// The highest sequence number among the events that carry one.
pub open spec fn spec_max_seq(events: Seq<JsonVal>) -> Option<i64>
    decreases events.len(),
{
    if events.len() == 0 {
        None
    } else {
        match (spec_max_seq(events.drop_last()), spec_seq_of(events.last())) {
            (Some(a), Some(b)) => if b > a {
                Some(b)
            } else {
                Some(a)
            },
            (Some(a), None) => Some(a),
            (None, b) => b,
        }
    }
}

/// What one poll outcome yields: the events and the highest sequence
/// number seen (zero when no event carries one), or the error text the
/// backend or the transport gave.
pub open spec fn fetch_post(
    outcome: Result<SocketResponse, IpcError>,
    r: Result<(Vec<JsonValue>, i64), String>,
) -> bool {
    match outcome {
        Err(e) => r matches Err(m) && m@ == spec_ipc_message(e),
        Ok(resp) => if resp.success {
            r matches Ok(p) && vals_view(p.0@) == spec_events_of(resp.data) && p.1 == match
                spec_max_seq(spec_events_of(resp.data)) {
                Some(m) => m,
                None => 0,
            }
        } else {
            r matches Err(m) && m@ == match resp.error {
                Some(t) => t@,
                None => "unknown error"@,
            }
        },
    }
}

/// Read one poll reply: its events and the highest sequence number
/// they show.
pub fn extract_events(outcome: Result<SocketResponse, IpcError>) -> (r: Result<
    (Vec<JsonValue>, i64),
    String,
>)
    ensures
        fetch_post(outcome, r),
{
    let resp = match outcome {
        Err(e) => {
            return Err(e.message());
        },
        Ok(resp) => resp,
    };
    if !resp.success {
        return Err(
            match resp.error {
                Some(t) => t,
                None => {
                    let mut m = String::new();
                    m.append("unknown error");
                    m
                },
            },
        );
    }
    let events: Vec<JsonValue> = match &resp.data {
        Some(d) => match d.get("events") {
            Some(ev) => match ev.as_array() {
                Some(items) => copy_items(items),
                None => Vec::new(),
            },
            None => Vec::new(),
        },
        None => Vec::new(),
    };
    proof {
        assert(vals_view(events@) =~= spec_events_of(resp.data));
    }
    let mut best: Option<i64> = None;
    let mut i: usize = 0;
    while i < events.len()
        invariant
            i <= events.len(),
            best == spec_max_seq(vals_view(events@).subrange(0, i as int)),
        decreases events.len() - i,
    {
        proof {
            let pre = vals_view(events@).subrange(0, i as int);
            let cur = vals_view(events@).subrange(0, i + 1 as int);
            assert(cur.drop_last() =~= pre);
            assert(cur.last() == vals_view(events@)[i as int]);
        }
        let sv = match events[i].get("sequence") {
            Some(v) => v.as_int(),
            None => None,
        };
        proof {
            assert(sv == spec_seq_of(vals_view(events@)[i as int]));
        }
        match sv {
            Some(n) => {
                match best {
                    Some(b) => {
                        if n > b {
                            best = Some(n);
                        }
                    },
                    None => {
                        best = Some(n);
                    },
                }
            },
            None => {},
        }
        i = i + 1;
    }
    proof {
        assert(vals_view(events@).subrange(0, events@.len() as int) =~= vals_view(events@));
    }
    let max_seq: i64 = match best {
        Some(b) => b,
        None => 0,
    };
    Ok((events, max_seq))
}

/// The cursor after a batch: moved up to `max_seq` only when that
/// exceeds it, never down.
pub fn advance_cursor(cursor: i64, max_seq: i64) -> (r: i64)
    ensures
        r == if max_seq > cursor {
            max_seq
        } else {
            cursor
        },
        r >= cursor,
{
    if max_seq > cursor {
        max_seq
    } else {
        cursor
    }
}

/// The watch loop's state: which run it follows and where its cursor
/// stands.
pub struct WatchState {
    pub run_id: String,
    pub cursor: i64,
}

impl WatchState {
    /// A fresh watch over `run_id`, starting at the given sequence
    /// number or at zero.
    pub fn new(run_id: String, since: Option<i64>) -> (r: WatchState)
        ensures
            r.run_id@ == run_id@,
            r.cursor == match since {
                Some(n) => n,
                None => 0i64,
            },
    {
        let cursor = match since {
            Some(n) => n,
            None => 0,
        };
        WatchState { run_id, cursor }
    }

    /// Absorb one poll outcome: the cursor never regresses, and an
    /// error leaves it untouched and the watch standing — the loop goes
    /// on to its next iteration whatever came back.
    pub fn on_poll(&mut self, outcome: Result<SocketResponse, IpcError>) -> (r: Result<
        Vec<JsonValue>,
        String,
    >)
        ensures
            final(self).run_id == old(self).run_id,
            final(self).cursor >= old(self).cursor,
            match outcome {
                Err(e) => (r matches Err(m) && m@ == spec_ipc_message(e)) && final(self).cursor
                    == old(self).cursor,
                Ok(resp) => if resp.success {
                    r matches Ok(evs) && vals_view(evs@) == spec_events_of(resp.data)
                        && final(self).cursor == spec_new_cursor(
                        old(self).cursor,
                        spec_events_of(resp.data),
                    )
                } else {
                    (r matches Err(m) && m@ == match resp.error {
                        Some(t) => t@,
                        None => "unknown error"@,
                    }) && final(self).cursor == old(self).cursor
                },
            },
    {
        match extract_events(outcome) {
            Ok((events, max_seq)) => {
                self.cursor = advance_cursor(self.cursor, max_seq);
                Ok(events)
            },
            Err(m) => Err(m),
        }
    }
}

/// The cursor a batch leaves behind: the old one, or the batch's
/// highest sequence number when that exceeds it.
pub open spec fn spec_new_cursor(cursor: i64, events: Seq<JsonVal>) -> i64 {
    let m = match spec_max_seq(events) {
        Some(n) => n,
        None => 0i64,
    };
    if m > cursor {
        m
    } else {
        cursor
    }
}

} // verus!
