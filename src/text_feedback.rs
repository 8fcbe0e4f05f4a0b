use vstd::prelude::*;
use crate::math_utils::Point;
use crate::exploration::{Feedback, TextFeedbackSpawn};

verus! {

/// How long a message stays on screen, in milliseconds.
pub const FEEDBACK_LIFETIME: u64 = 500;

/// A message on screen, until `time_to_destroy`.
#[derive(Clone, Copy, Debug, PartialEq, Eq, Structural)]
pub struct TextFeedback {
    pub feedback: Feedback,
    pub pos: Point,
    pub time_to_destroy: u64,
}

/// The message shown for `spawn` at `now`; its end saturates.
pub open spec fn shown_at(spawn: TextFeedbackSpawn, now: u64) -> TextFeedback {
    TextFeedback {
        feedback: spawn.feedback,
        pos: spawn.pos,
        time_to_destroy: if now + FEEDBACK_LIFETIME > u64::MAX {
            u64::MAX
        } else {
            (now + FEEDBACK_LIFETIME) as u64
        },
    }
}

/// A message is kept while its end has not passed.
pub open spec fn still_shown(now: u64) -> spec_fn(TextFeedback) -> bool {
    |f: TextFeedback| f.time_to_destroy >= now
}

/// Shows each refusal of `spawns`, in order, from `now` on.
pub fn spawn_text_feedback(shown: &mut Vec<TextFeedback>, spawns: &Vec<TextFeedbackSpawn>, now: u64)
    ensures
        final(shown)@ == old(shown)@ + spawns@.map_values(|s: TextFeedbackSpawn| shown_at(s, now)),
{
    let end: u64 = now.saturating_add(FEEDBACK_LIFETIME);
    let mut i: usize = 0;
    while i < spawns.len()
        invariant
            i <= spawns@.len(),
            end == (if now + FEEDBACK_LIFETIME > u64::MAX {
                u64::MAX
            } else {
                (now + FEEDBACK_LIFETIME) as u64
            }),
            shown@ == old(shown)@ + spawns@.take(i as int).map_values(
                |s: TextFeedbackSpawn| shown_at(s, now),
            ),
        decreases spawns@.len() - i,
    {
        let s = spawns[i];
        shown.push(TextFeedback { feedback: s.feedback, pos: s.pos, time_to_destroy: end });
        i = i + 1;
        assert(shown@ =~= old(shown)@ + spawns@.take(i as int).map_values(
            |s: TextFeedbackSpawn| shown_at(s, now),
        ));
    }
    assert(spawns@.take(i as int) =~= spawns@);
}

/// Removes the messages whose end is before `now`.
pub fn destroy_after(shown: &mut Vec<TextFeedback>, now: u64)
    ensures
        final(shown)@ == old(shown)@.filter(still_shown(now)),
{
    let ghost all = shown@;
    let mut kept: Vec<TextFeedback> = Vec::new();
    let mut i: usize = 0;
    while i < shown.len()
        invariant
            shown@ == all,
            i <= all.len(),
            kept@ == all.take(i as int).filter(still_shown(now)),
        decreases all.len() - i,
    {
        let f = shown[i];
        proof {
            reveal(Seq::filter);
            assert(all.take(i + 1).drop_last() =~= all.take(i as int));
            assert(all.take(i + 1).last() == f);
        }
        if f.time_to_destroy >= now {
            kept.push(f);
        }
        i = i + 1;
    }
    assert(all.take(i as int) =~= all);
    *shown = kept;
}

} // verus!
