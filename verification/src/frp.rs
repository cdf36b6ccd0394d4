//! What the FRP device adapter sends for each client event.
//!
//! The R10 delivers all shot data atomically in a single `Event::Shot`; the
//! adapter answers it with the full FRP sequence `ShotTrigger → BallFlight →
//! ClubPath → ShotFinished` under a new shot number, after telling the
//! controller that the device is no longer ready. `Ready` and state changes
//! become device telemetry. Sending the envelopes is left to the caller.

use vstd::prelude::*;
use crate::client::Event;
use crate::proto::{BallData, ClubData, ShotData};

verus! {

/// One envelope to send.
#[derive(Debug, Clone, Copy)]
pub enum FrpStep {
    /// Device telemetry with its `ready` flag.
    Telemetry { ready: bool },
    /// The shot started.
    ShotTrigger,
    /// The ball flight of the shot.
    BallFlight(BallData),
    /// The club path of the shot.
    ClubPath(ClubData),
    /// The shot is complete.
    ShotFinished,
}

/// The envelopes of a shot: its trigger, its ball flight and club path where
/// the shot has them, and its end.
pub open spec fn shot_steps(shot: ShotData) -> Seq<FrpStep> {
    let ball = match shot.ball {
        Some(b) => seq![FrpStep::BallFlight(b)],
        None => Seq::empty(),
    };
    let club = match shot.club {
        Some(c) => seq![FrpStep::ClubPath(c)],
        None => Seq::empty(),
    };
    seq![FrpStep::ShotTrigger] + ball + club + seq![FrpStep::ShotFinished]
}

/// The envelopes for an event, in order, and the shot number after it: a
/// shot takes the next shot number.
pub open spec fn frp_plan(event: Event, shot_number: u32) -> (Seq<FrpStep>, u32) {
    match event {
        Event::Ready => (seq![FrpStep::Telemetry { ready: true }], shot_number),
        Event::StateChange(_) => (seq![FrpStep::Telemetry { ready: false }], shot_number),
        Event::Shot(shot) => (
            seq![FrpStep::Telemetry { ready: false }] + shot_steps(shot),
            (shot_number + 1) as u32,
        ),
        _ => (Seq::empty(), shot_number),
    }
}

/// Plan the envelopes for a client event (see `frp_plan`). The shot number
/// must leave room for one more shot.
pub fn plan_event(event: &Event, shot_number: u32) -> (r: (Vec<FrpStep>, u32))
    requires
        event is Shot ==> shot_number < u32::MAX,
    ensures
        (r.0@, r.1) == frp_plan(*event, shot_number),
{
    let mut steps: Vec<FrpStep> = Vec::new();
    match event {
        Event::Ready => {
            steps.push(FrpStep::Telemetry { ready: true });
            assert(steps@ =~= seq![FrpStep::Telemetry { ready: true }]);
            (steps, shot_number)
        },
        Event::StateChange(_) => {
            steps.push(FrpStep::Telemetry { ready: false });
            assert(steps@ =~= seq![FrpStep::Telemetry { ready: false }]);
            (steps, shot_number)
        },
        Event::Shot(shot) => {
            // Ready goes false before the shot sequence.
            steps.push(FrpStep::Telemetry { ready: false });
            steps.push(FrpStep::ShotTrigger);
            match shot.ball {
                Some(b) => steps.push(FrpStep::BallFlight(b)),
                None => {},
            }
            match shot.club {
                Some(c) => steps.push(FrpStep::ClubPath(c)),
                None => {},
            }
            steps.push(FrpStep::ShotFinished);
            assert(steps@ =~= seq![FrpStep::Telemetry { ready: false }] + shot_steps(*shot));
            (steps, shot_number + 1)
        },
        _ => {
            assert(steps@ =~= Seq::<FrpStep>::empty());
            (steps, shot_number)
        },
    }
}

/// The adapter forwards a shot as it is: the plan for a shot first says the
/// device is not ready, then triggers the shot and ends with its finish;
/// it holds a ball flight exactly when the shot has ball data, and then
/// with that very ball data, and a club path exactly when the shot has club
/// data, with that very club data; and the shot takes the next number.
pub proof fn lemma_shot_forwarded(shot: ShotData, n: u32)
    ensures
        ({
            let (steps, m) = frp_plan(Event::Shot(shot), n);
            &&& steps[0] == FrpStep::Telemetry { ready: false }
            &&& steps[1] == FrpStep::ShotTrigger
            &&& steps.last() == FrpStep::ShotFinished
            &&& m == (n + 1) as u32
            &&& forall|i: int| 0 <= i < steps.len() ==> (#[trigger] steps[i] matches FrpStep::BallFlight(b) ==> shot.ball == Some(b))
            &&& forall|i: int| 0 <= i < steps.len() ==> (#[trigger] steps[i] matches FrpStep::ClubPath(c) ==> shot.club == Some(c))
            &&& shot.ball matches Some(b) ==> steps.contains(FrpStep::BallFlight(b))
            &&& shot.club matches Some(c) ==> steps.contains(FrpStep::ClubPath(c))
        }),
{
    let steps = frp_plan(Event::Shot(shot), n).0;
    let ball = match shot.ball {
        Some(b) => seq![FrpStep::BallFlight(b)],
        None => Seq::<FrpStep>::empty(),
    };
    let club = match shot.club {
        Some(c) => seq![FrpStep::ClubPath(c)],
        None => Seq::<FrpStep>::empty(),
    };
    let all = seq![FrpStep::Telemetry { ready: false }, FrpStep::ShotTrigger] + ball + club + seq![FrpStep::ShotFinished];
    assert(steps =~= all);
    assert forall|i: int| 0 <= i < steps.len() implies (#[trigger] steps[i] matches FrpStep::BallFlight(b) ==> shot.ball == Some(b)) by {
        if i >= 2 && i < 2 + ball.len() {
            assert(steps[i] == ball[i - 2]);
        } else if i >= 2 + ball.len() && i < 2 + ball.len() + club.len() {
            assert(steps[i] == club[i - 2 - ball.len()]);
        }
    }
    assert forall|i: int| 0 <= i < steps.len() implies (#[trigger] steps[i] matches FrpStep::ClubPath(c) ==> shot.club == Some(c)) by {
        if i >= 2 && i < 2 + ball.len() {
            assert(steps[i] == ball[i - 2]);
        } else if i >= 2 + ball.len() && i < 2 + ball.len() + club.len() {
            assert(steps[i] == club[i - 2 - ball.len()]);
        }
    }
    if let Some(b) = shot.ball {
        assert(steps[2] == FrpStep::BallFlight(b));
    }
    if let Some(c) = shot.club {
        assert(steps[2 + ball.len() as int] == FrpStep::ClubPath(c));
    }
}

} // verus!
