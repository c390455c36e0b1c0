//! When errors are worth a message, and when a connection counts as lost.
use crate::can::vci::{due, is_due};
use crate::table::Table;
use crate::text;
use vstd::prelude::*;

verus! {

/// Reports of a loss that confirm it.
pub const CONNECTION_LOSS_CONFIRMATIONS: u8 = 3;

/// Nanoseconds within which a report follows the one before it to count as its successor.
pub const CONNECTION_LOSS_WINDOW: u64 = 2_000_000_000;

/// Nanoseconds after which an error is worth repeating.
pub const REPEAT_ERROR_AFTER: u64 = 1_000_000_000;

/// The last message of each channel and when it was written.
pub type RecentErrors = Table<(String, u64)>;

/// Whether a message is worth writing: it is new for its channel, or old enough to repeat.
pub open spec fn worth_logging(
    recent: Map<u64, (String, u64)>,
    channel: u8,
    message: Seq<char>,
    now: u64,
) -> bool {
    !recent.dom().contains(channel as u64) || recent[channel as u64].0@ != message || is_due(
        Some(recent[channel as u64].1),
        now,
        REPEAT_ERROR_AFTER,
    )
}

/// The messages after one of a channel: one that is worth writing takes the place of the last one of
/// its channel, and those of the other channels stay.
pub open spec fn remembers(
    before: Map<u64, (String, u64)>,
    channel: u8,
    message: Seq<char>,
    now: u64,
    after: Map<u64, (String, u64)>,
) -> bool {
    if worth_logging(before, channel, message, now) {
        &&& after.dom() == before.dom().insert(channel as u64)
        &&& after[channel as u64].0@ == message
        &&& after[channel as u64].1 == now
        &&& forall|k: u64|
            k != channel && before.dom().contains(k) ==> #[trigger] after[k] == before[k]
    } else {
        after == before
    }
}

/// Whether an error of a channel is worth a message; if so it is remembered.
pub fn should_log_send_error(
    recent: &mut RecentErrors,
    channel: u8,
    message: &str,
    now: u64,
) -> (r: bool)
    requires
        old(recent).wf(),
    ensures
        final(recent).wf(),
        r == worth_logging(old(recent).map(), channel, message@, now),
        remembers(old(recent).map(), channel, message@, now, final(recent).map()),
{
    let worth: bool = match recent.find(channel as u64) {
        None => true,
        Some(i) => {
            let entry = recent.value_at(i);
            !text::same_text(entry.0.as_str(), message) || due(
                Some(entry.1),
                now,
                REPEAT_ERROR_AFTER,
            )
        },
    };
    if worth {
        recent.insert(channel as u64, (message.to_owned(), now));
        assert(recent.map().dom() =~= old(recent).map().dom().insert(channel as u64));
    }
    worth
}

/// The run of reports after a further one: it starts over where the last one is too long ago.
pub open spec fn next_streak(before: Option<(u8, u64)>, now: u64) -> (u8, u64) {
    match before {
        None => (1, now),
        Some((n, at)) => {
            let kept = if now > at && now - at > CONNECTION_LOSS_WINDOW {
                0u8
            } else {
                n
            };
            (if kept == 255 { 255 } else { (kept + 1) as u8 }, now)
        },
    }
}

/// The run of reports of a channel.
pub open spec fn streak_of(streaks: Map<u64, (u8, u64)>, channel: u8) -> Option<(u8, u64)> {
    if streaks.dom().contains(channel as u64) {
        Some(streaks[channel as u64])
    } else {
        None
    }
}

/// Whether the loss of a connection is confirmed. Polls without a report say nothing: most
/// adapters look at the device only now and then.
pub fn connection_loss_confirmed(
    streaks: &mut Table<(u8, u64)>,
    channel: u8,
    connection_lost: bool,
    now: u64,
) -> (r: bool)
    requires
        old(streaks).wf(),
    ensures
        final(streaks).wf(),
        !connection_lost ==> !r && final(streaks).rows() == old(streaks).rows(),
        connection_lost ==> {
            let next = next_streak(streak_of(old(streaks).map(), channel), now);
            &&& final(streaks).map() == old(streaks).map().insert(channel as u64, next)
            &&& r == (next.0 >= CONNECTION_LOSS_CONFIRMATIONS)
        },
{
    if !connection_lost {
        return false;
    }
    let mut count: u8 = 0;
    if let Some(i) = streaks.find(channel as u64) {
        let (n, at): (u8, u64) = *streaks.value_at(i);
        if now.saturating_sub(at) <= CONNECTION_LOSS_WINDOW {
            count = n;
        }
    }
    count = count.saturating_add(1);
    streaks.insert(channel as u64, (count, now));
    count >= CONNECTION_LOSS_CONFIRMATIONS
}

/// A loss is confirmed by the third report of a run, not before: the first two reports never
/// confirm it, and a third within the window of the second does.
pub proof fn law_three_reports_confirm_a_loss(first: u64, second: u64, third: u64)
    requires
        first <= second <= third,
    ensures
        ({
            let a = next_streak(None, first);
            let b = next_streak(Some(a), second);
            let c = next_streak(Some(b), third);
            &&& a.0 < CONNECTION_LOSS_CONFIRMATIONS
            &&& b.0 < CONNECTION_LOSS_CONFIRMATIONS
            &&& c.0 >= CONNECTION_LOSS_CONFIRMATIONS <==> second - first <= CONNECTION_LOSS_WINDOW
                && third - second <= CONNECTION_LOSS_WINDOW
        }),
{
}

} // verus!
