//! Joining, leaving, and the rules for both.

use crate::arithmetic;
use crate::arithmetic::Arithmetic;
use crate::buttons;
use crate::buttons::{GamepadButton, JOIN_BUTTONS};
use crate::config::{CouchConfig, JoinMode, JoinTrigger, LeaveMode};
use crate::entities;
use crate::gamepad;
use crate::gamepad::Gamepad;
use crate::input::PlayerInput;
use crate::player::{
    LeaveReason, PlayerDevice, PlayerId, PlayerJoined, PlayerLeft, PlayerReconnected,
};
use crate::roster;
use crate::roster::{PlayerRoster, RosterView};
use crate::scalar;
use crate::scalar::{Double, Single};
use crate::select;
use bevy_ecs::entity::Entity;
use vstd::prelude::*;

verus! {

/// Tracks how long a player has held the leave button.
///
/// [`progress`](Self::progress) is 0..1: wire it to a filling ring so players
/// can see the hold register instead of guessing.
#[derive(Debug, Clone, Copy)]
pub struct LeaveHold {
    /// Seconds the leave button has been held.
    pub held_secs: Single,
    /// How long it has to be held. Kept in sync with [`LeaveMode`], so UI code
    /// doesn't have to reach for the config to draw a progress ring.
    pub required_secs: Single,
}

/// A player and what their leave button is doing.
#[derive(Debug, Clone, Copy)]
pub struct PlayerHold {
    /// The player.
    pub player: PlayerId,
    /// Whether the leave button is down; see [`holds_leave`].
    pub holding: bool,
    /// For how long it was.
    pub hold: LeaveHold,
}

impl PlayerHold {
    /// A player as their input has them in this frame.
    pub fn new(
        player: PlayerId,
        hold: LeaveHold,
        config: &CouchConfig,
        input: &PlayerInput,
    ) -> (r: PlayerHold)
        ensures
            r == (PlayerHold {
                player,
                holding: leave_button_down(config.leave_mode, *input),
                hold,
            }),
    {
        PlayerHold { player, holding: holds_leave(config, input), hold }
    }
}

impl LeaveHold {
    /// `r` is how far the hold has come.
    pub open spec fn filled<M: Arithmetic>(self, math: &M, r: Single) -> bool {
        let zero = Single { bits: scalar::ZERO };
        let one = Single { bits: scalar::ONE };
        if self.required_secs.within(zero) {
            r == (if zero.below(self.held_secs) {
                one
            } else {
                zero
            })
        } else {
            exists|share: Single| #[trigger]
                arithmetic::quotient(math, self.held_secs, self.required_secs, share) && r
                    == share.clamped(zero, one)
        }
    }

    /// How long the button has to be held, per the current [`CouchConfig`].
    /// Zero when [`LeaveMode::Manual`] is in effect.
    pub fn required_secs(&self) -> (r: Single)
        ensures
            r == self.required_secs,
    {
        self.required_secs
    }

    /// Whether the leave button is down right now.
    pub fn is_holding(&self) -> (r: bool)
        ensures
            r == (Single { bits: scalar::ZERO }).below(self.held_secs),
    {
        (Single { bits: scalar::ZERO }).less_than(self.held_secs)
    }

    /// Hold progress in 0..1, for a filling UI indicator.
    pub fn progress<M: Arithmetic>(&self, math: &M) -> (r: Single)
        ensures
            self.filled(math, r),
    {
        let zero = Single { bits: scalar::ZERO };
        let one = Single { bits: scalar::ONE };
        if self.required_secs.at_most(zero) {
            return if self.is_holding() {
                one
            } else {
                zero
            };
        }
        let share = math.over(self.held_secs, self.required_secs);
        assert(arithmetic::quotient(math, self.held_secs, self.required_secs, share));
        share.clamp(zero, one)
    }
}

impl Default for LeaveHold {
    fn default() -> (r: LeaveHold)
        ensures
            r == (LeaveHold {
                held_secs: Single { bits: scalar::ZERO },
                required_secs: Single { bits: scalar::ZERO },
            }),
    {
        LeaveHold {
            held_secs: Single { bits: scalar::ZERO },
            required_secs: Single { bits: scalar::ZERO },
        }
    }
}

/// The trigger fired on this pad.
pub open spec fn fired(trigger: JoinTrigger, pad: Gamepad) -> bool {
    match trigger {
        JoinTrigger::AnyButton => exists|button: GamepadButton| #[trigger]
            button.joins() && pad.went_down(button),
        JoinTrigger::Button(button) => pad.went_down(button),
        JoinTrigger::AnyOf(list) => exists|i: int|
            0 <= i < list@.len() && pad.went_down(#[trigger] list@[i]),
    }
}

/// An unassigned gamepad that wants in.
pub open spec fn eager(mode: JoinMode, gamepads: Seq<Gamepad>, pad: Entity) -> bool {
    match mode {
        JoinMode::Automatic => true,
        JoinMode::PressToJoin(trigger) => match gamepad::place(gamepads, pad) {
            Some(i) => fired(trigger, gamepads[i]),
            None => false,
        },
        JoinMode::Manual => false,
    }
}

/// The queue once those of `pads` that want in have asked, one after the
/// other.
pub open spec fn asked(
    queue: Seq<Entity>,
    mode: JoinMode,
    gamepads: Seq<Gamepad>,
    pads: Seq<Entity>,
) -> Seq<Entity>
    decreases pads.len(),
{
    if pads.len() == 0 {
        queue
    } else {
        let so_far = asked(queue, mode, gamepads, pads.drop_last());
        if eager(mode, gamepads, pads.last()) {
            entities::joined(so_far, pads.last())
        } else {
            so_far
        }
    }
}

/// The roster once every unassigned gamepad that wants in has asked.
pub open spec fn after_requests(
    roster: RosterView,
    mode: JoinMode,
    gamepads: Seq<Gamepad>,
) -> RosterView {
    RosterView {
        join_queue: asked(roster.join_queue, mode, gamepads, roster.unassigned),
        ..roster
    }
}

/// Letting gamepads in: where the roster stands, who joined and who is back.
#[verifier::ext_equal]
pub struct Admission {
    /// The roster.
    pub roster: RosterView,
    /// Who took a free slot.
    pub joined: Seq<PlayerJoined>,
    /// Who came back by joining.
    pub reconnected: Seq<PlayerReconnected>,
    /// The gamepads that found no room.
    pub refused: Seq<Entity>,
}

/// The slot a borrowed controller takes over: the one that waited longest.
pub open spec fn adopted(roster: RosterView, adopt_any: bool) -> Option<int> {
    if adopt_any {
        roster.longest_waiting(roster.slots.len())
    } else {
        None
    }
}

/// The roster with `pad` taken out of the pool.
pub open spec fn claimed(roster: RosterView, pad: Entity) -> RosterView {
    RosterView { unassigned: entities::without(roster.unassigned, pad), ..roster }
}

/// The gamepads let in, one after the other: each restores the player who has
/// waited longest, where the policy says so, and otherwise takes the lowest
/// free slot; `spawned` are the entities of the players who take one. One that
/// finds no room is refused, and one that drives a player already is left out.
pub open spec fn admitted(
    roster: RosterView,
    adopt_any: bool,
    gamepads: Seq<Gamepad>,
    pads: Seq<Entity>,
    spawned: Seq<Entity>,
) -> Admission
    decreases pads.len(),
{
    if pads.len() == 0 {
        Admission {
            roster,
            joined: Seq::empty(),
            reconnected: Seq::empty(),
            refused: Seq::empty(),
        }
    } else {
        let so_far = admitted(roster, adopt_any, gamepads, pads.drop_last(), spawned);
        let here = so_far.roster;
        let pad = pads.last();
        let look = gamepad::fingerprint(gamepads, pad);
        if here.owner(pad) is Some {
            so_far
        } else {
            match adopted(here, adopt_any) {
                Some(i) => Admission {
                    roster: claimed(here.attach(roster::id_of(i), pad, look), pad),
                    reconnected: so_far.reconnected.push(
                        PlayerReconnected {
                            id: roster::id_of(i),
                            player_entity: here.slots[i]->player_entity,
                            gamepad: pad,
                            same_device: here.slots[i]->fingerprint.alike(look),
                        },
                    ),
                    ..so_far
                },
                None => match select::first(here.slots.len(), here.free()) {
                    Some(i) => {
                        let player_entity = spawned[so_far.joined.len() as int];
                        Admission {
                            roster: claimed(
                                here.occupy(roster::id_of(i), player_entity, pad, look),
                                pad,
                            ),
                            joined: so_far.joined.push(
                                PlayerJoined {
                                    id: roster::id_of(i),
                                    player_entity,
                                    gamepad: pad,
                                },
                            ),
                            ..so_far
                        }
                    },
                    None => Admission { refused: so_far.refused.push(pad), ..so_far },
                },
            }
        }
    }
}

/// Of the gamepads `pads`, the one at `k` opens the slot `id`: it drives nobody
/// by then, nobody is there for it to restore, and that slot is the lowest
/// free one.
pub open spec fn opens_at(
    roster: RosterView,
    adopt_any: bool,
    gamepads: Seq<Gamepad>,
    pads: Seq<Entity>,
    spawned: Seq<Entity>,
    k: int,
    id: PlayerId,
) -> bool {
    let here = admitted(roster, adopt_any, gamepads, pads.take(k), spawned).roster;
    &&& 0 <= k < pads.len()
    &&& here.owner(pads[k]) is None
    &&& adopted(here, adopt_any) is None
    &&& roster::found(select::first(here.slots.len(), here.free())) == Some(id)
}

/// The entities of those who joined.
pub open spec fn newcomers(joined: Seq<PlayerJoined>) -> Seq<Entity> {
    Seq::new(joined.len(), |k: int| joined[k].player_entity)
}

/// The roster with its join queue taken.
pub open spec fn without_requests(roster: RosterView) -> RosterView {
    RosterView { join_queue: Seq::empty(), ..roster }
}

/// The player is asked to hold this button and does.
pub open spec fn leave_button_down(mode: LeaveMode, input: PlayerInput) -> bool {
    match mode {
        LeaveMode::HoldButton { button, .. } => input.connected && buttons::held(
            input.buttons,
        ).contains(button.number()),
        LeaveMode::Manual => false,
    }
}

/// A frame of a player's leave button: `after` is the hold, and `out` says
/// whether it is complete.
pub open spec fn held_on<M: Arithmetic>(
    math: &M,
    required: Single,
    dt: Single,
    before: PlayerHold,
    after: PlayerHold,
    out: bool,
) -> bool {
    let zero = Single { bits: scalar::ZERO };
    let idle = before.hold.held_secs.same(zero) && before.hold.required_secs.same(required);
    if !before.holding {
        &&& !out
        &&& after == (if idle {
            before
        } else {
            PlayerHold {
                hold: LeaveHold { held_secs: zero, required_secs: required },
                ..before
            }
        })
    } else {
        exists|held: Single| #[trigger]
            arithmetic::sum(math, before.hold.held_secs, dt, held) && out == required.within(held)
                && after == (PlayerHold {
                hold: LeaveHold {
                    held_secs: if out {
                        zero
                    } else {
                        held
                    },
                    required_secs: required,
                },
                ..before
            })
    }
}

/// A frame of the first `n` players' leave buttons.
pub open spec fn all_held_on<M: Arithmetic>(
    math: &M,
    required: Single,
    dt: Single,
    before: Seq<PlayerHold>,
    after: Seq<PlayerHold>,
    outs: Seq<bool>,
    n: int,
) -> bool {
    &&& after.len() == before.len()
    &&& outs.len() == n
    &&& forall|i: int|
        0 <= i < n ==> held_on(math, required, dt, before[i], #[trigger] after[i], outs[i])
    &&& forall|i: int| n <= i < before.len() ==> #[trigger] after[i] == before[i]
}

/// The queue once those who completed their hold have asked to leave.
pub open spec fn walked_out(
    queue: Seq<(PlayerId, LeaveReason)>,
    players: Seq<PlayerHold>,
    outs: Seq<bool>,
) -> Seq<(PlayerId, LeaveReason)>
    decreases outs.len(),
{
    if outs.len() == 0 {
        queue
    } else {
        let so_far = walked_out(queue, players, outs.drop_last());
        if outs.last() {
            roster::queued(so_far, players[outs.len() - 1].player, LeaveReason::Requested)
        } else {
            so_far
        }
    }
}

/// The queue once the slots that waited too long are out of time.
pub open spec fn timed_out(
    queue: Seq<(PlayerId, LeaveReason)>,
    ids: Seq<PlayerId>,
) -> Seq<(PlayerId, LeaveReason)>
    decreases ids.len(),
{
    if ids.len() == 0 {
        queue
    } else {
        roster::queued(timed_out(queue, ids.drop_last()), ids.last(), LeaveReason::TimedOut)
    }
}

/// Letting players go: where the roster stands, who left, and which gamepads
/// have to be told to stop.
#[verifier::ext_equal]
pub struct Departure {
    /// The roster.
    pub roster: RosterView,
    /// Who left.
    pub left: Seq<PlayerLeft>,
    /// Live gamepads they left behind.
    pub stopped: Seq<Entity>,
}

/// The players let go, one after the other. A still-plugged-in pad goes back
/// in the pool so it can rejoin, and is told to stop: nothing else ever would.
pub open spec fn departed(
    roster: RosterView,
    gamepads: Seq<Gamepad>,
    requests: Seq<(PlayerId, LeaveReason)>,
) -> Departure
    decreases requests.len(),
{
    if requests.len() == 0 {
        Departure { roster, left: Seq::empty(), stopped: Seq::empty() }
    } else {
        let so_far = departed(roster, gamepads, requests.drop_last());
        let (id, reason) = requests.last();
        match so_far.roster.slot(id) {
            Some(slot) => {
                let left = so_far.left.push(
                    PlayerLeft { id, player_entity: slot.player_entity, reason },
                );
                let vacated = so_far.roster.vacate(id);
                match slot.device {
                    PlayerDevice::Gamepad(pad) => if gamepad::live(gamepads, pad) {
                        Departure {
                            roster: RosterView {
                                unassigned: entities::joined(vacated.unassigned, pad),
                                ..vacated
                            },
                            left,
                            stopped: so_far.stopped.push(pad),
                        }
                    } else {
                        Departure { roster: vacated, left, ..so_far }
                    },
                    PlayerDevice::Missing => Departure { roster: vacated, left, ..so_far },
                }
            },
            None => so_far,
        }
    }
}

/// Whether a player holds their leave button.
pub fn holds_leave(config: &CouchConfig, input: &PlayerInput) -> (r: bool)
    ensures
        r == leave_button_down(config.leave_mode, *input),
{
    match &config.leave_mode {
        LeaveMode::HoldButton { button, .. } => input.connected && input.pressed(*button),
        LeaveMode::Manual => false,
    }
}

/// Whether a gamepad wants in.
fn wants_in(trigger: &JoinTrigger, pad: &Gamepad) -> (r: bool)
    ensures
        r == fired(*trigger, *pad),
{
    match trigger {
        JoinTrigger::AnyButton => {
            let list = JOIN_BUTTONS;
            let r = pad.any_just_pressed(&list);
            proof {
                if r {
                    let i = choose|i: int|
                        0 <= i < list@.len() && pad.went_down(#[trigger] list@[i]);
                    assert(list@.contains(list@[i]));
                    buttons::law_join_buttons_omit_triggers_select_and_mode(list@[i]);
                    assert(list@[i].joins());
                } else {
                    assert forall|button: GamepadButton| #[trigger]
                        button.joins() implies !pad.went_down(button) by {
                        buttons::law_join_buttons_omit_triggers_select_and_mode(button);
                        let i = choose|i: int| 0 <= i < list@.len() && list@[i] == button;
                        assert(!pad.went_down(list@[i]));
                    }
                }
            }
            r
        },
        JoinTrigger::Button(button) => pad.just_pressed(*button),
        JoinTrigger::AnyOf(list) => pad.any_just_pressed(list.as_slice()),
    }
}

/// Queues the unassigned gamepads that want in.
pub fn queue_join_requests(
    roster: &mut PlayerRoster,
    config: &CouchConfig,
    gamepads: &Vec<Gamepad>,
)
    requires
        old(roster)@.wf(),
    ensures
        final(roster)@ == after_requests(old(roster)@, config.join_mode, gamepads@),
        final(roster)@.wf(),
{
    let ghost before = roster@;
    let ghost pads = before.unassigned;
    let mut i: usize = 0;
    while i < roster.unassigned_gamepads().len()
        invariant
            before == old(roster)@,
            pads == before.unassigned,
            roster@.wf(),
            i <= pads.len(),
            roster@ == (RosterView {
                join_queue: asked(
                    before.join_queue,
                    config.join_mode,
                    gamepads@,
                    pads.take(i as int),
                ),
                ..before
            }),
        decreases pads.len() - i,
    {
        let pad = roster.unassigned_gamepads()[i];
        proof {
            assert(pads.take(i + 1).drop_last() == pads.take(i as int));
            assert(pads.take(i + 1).last() == pad);
        }
        let wants = match &config.join_mode {
            JoinMode::Automatic => true,
            JoinMode::PressToJoin(trigger) => match gamepad::find(gamepads, pad) {
                Some(found) => wants_in(trigger, found),
                None => false,
            },
            JoinMode::Manual => false,
        };
        if wants {
            roster.request_join(pad);
        }
        i += 1;
    }
    assert(pads.take(i as int) == pads);
}

/// Only the entities of those who joined so far matter.
proof fn lemma_admitted_by(
    roster: RosterView,
    adopt_any: bool,
    gamepads: Seq<Gamepad>,
    pads: Seq<Entity>,
    a: Seq<Entity>,
    b: Seq<Entity>,
)
    requires
        forall|k: int|
            0 <= k < admitted(roster, adopt_any, gamepads, pads, a).joined.len() ==> a[k] == b[k],
    ensures
        admitted(roster, adopt_any, gamepads, pads, a) == admitted(
            roster,
            adopt_any,
            gamepads,
            pads,
            b,
        ),
    decreases pads.len(),
{
    if pads.len() > 0 {
        lemma_admitted_by(roster, adopt_any, gamepads, pads.drop_last(), a, b);
    }
}

/// Where the longest waiting slot is, it is a slot that waits.
pub proof fn lemma_longest_waiting_waits(roster: RosterView, n: nat)
    requires
        n <= roster.slots.len(),
    ensures
        roster.longest_waiting(n) matches Some(i) ==> 0 <= i < n && roster.slots[i].waiting(),
    decreases n,
{
    if n > 0 {
        lemma_longest_waiting_waits(roster, (n - 1) as nat);
    }
}

/// What came of the join requests.
#[derive(Debug)]
pub struct Admissions {
    /// Who took a free slot.
    pub joined: Vec<PlayerJoined>,
    /// Who came back by joining.
    pub reconnected: Vec<PlayerReconnected>,
    /// The gamepads that found no room.
    pub refused: Vec<Entity>,
}

/// Turns queued join requests into players, restoring waiting slots first.
/// `spawn` makes the entity of a player who takes a slot with a gamepad; it is
/// asked only for gamepads that open a slot, so restoring a player or turning a
/// gamepad away makes nobody.
///
/// Someone still waiting on dead hardware gets first refusal, so a borrowed
/// controller restores that player, with their score and whatever else hangs
/// off their entity, instead of opening a second slot beside the one they're
/// still holding.
pub fn admit_players<S: Fn(PlayerId, Entity) -> Entity>(
    roster: &mut PlayerRoster,
    config: &CouchConfig,
    gamepads: &Vec<Gamepad>,
    spawn: &S,
) -> (r: Admissions)
    requires
        old(roster)@.wf(),
        forall|spawned: Seq<Entity>, k: int, id: PlayerId| #[trigger]
            opens_at(
                without_requests(old(roster)@),
                config.reconnect.adopt_any,
                gamepads@,
                old(roster)@.join_queue,
                spawned,
                k,
                id,
            ) ==> call_requires(*spawn, (id, old(roster)@.join_queue[k])),
    ensures
        final(roster)@.wf(),
        ({
            let after = admitted(
                without_requests(old(roster)@),
                config.reconnect.adopt_any,
                gamepads@,
                old(roster)@.join_queue,
                newcomers(r.joined@),
            );
            &&& final(roster)@ == after.roster
            &&& r.joined@ == after.joined
            &&& r.reconnected@ == after.reconnected
            &&& r.refused@ == after.refused
        }),
        forall|k: int|
            0 <= k < r.joined@.len() ==> call_ensures(
                *spawn,
                (r.joined@[k].id, r.joined@[k].gamepad),
                (#[trigger] r.joined@[k]).player_entity,
            ),
{
    let ghost start = without_requests(roster@);
    let ghost adopt_any = config.reconnect.adopt_any;
    let pads = roster.take_join_requests();
    let mut joined: Vec<PlayerJoined> = Vec::new();
    let mut reconnected: Vec<PlayerReconnected> = Vec::new();
    let mut refused: Vec<Entity> = Vec::new();
    let mut i: usize = 0;
    while i < pads.len()
        invariant
            adopt_any == config.reconnect.adopt_any,
            forall|spawned: Seq<Entity>, k: int, id: PlayerId| #[trigger]
                opens_at(start, adopt_any, gamepads@, pads@, spawned, k, id) ==> call_requires(
                    *spawn,
                    (id, pads@[k]),
                ),
            roster@.wf(),
            i <= pads.len(),
            ({
                let after = admitted(
                    start,
                    adopt_any,
                    gamepads@,
                    pads@.take(i as int),
                    newcomers(joined@),
                );
                &&& roster@ == after.roster
                &&& joined@ == after.joined
                &&& reconnected@ == after.reconnected
                &&& refused@ == after.refused
            }),
            forall|k: int|
                0 <= k < joined@.len() ==> call_ensures(
                    *spawn,
                    (joined@[k].id, joined@[k].gamepad),
                    (#[trigger] joined@[k]).player_entity,
                ),
        decreases pads.len() - i,
    {
        let pad = pads[i];
        let ghost before = newcomers(joined@);
        proof {
            assert(pads@.take(i + 1).drop_last() == pads@.take(i as int));
            assert(pads@.take(i + 1).last() == pad);
            lemma_longest_waiting_waits(roster@, roster@.slots.len());
            select::lemma_first(roster@.slots.len(), roster@.free());
        }
        i += 1;
        if roster.player_of_gamepad(pad).is_some() {
            continue;
        }
        let fingerprint = gamepad::fingerprint_of(pad, gamepads);
        let waiting = if config.reconnect.adopt_any {
            roster.longest_waiting_slot()
        } else {
            None
        };
        if let Some(id) = waiting {
            let same_device = match roster.fingerprint(id) {
                Some(known) => known.matches(&fingerprint),
                None => false,
            };
            if let Some(player_entity) = roster.attach_device(id, pad, fingerprint.clone()) {
                roster.claim_unassigned(pad);
                reconnected.push(
                    PlayerReconnected { id, player_entity, gamepad: pad, same_device },
                );
                continue;
            }
        }
        let id = match roster.first_free_slot() {
            Some(id) => id,
            None => {
                refused.push(pad);
                continue;
            },
        };
        assert(opens_at(start, adopt_any, gamepads@, pads@, before, i - 1, id));
        let player_entity = spawn(id, pad);
        roster.occupy(id, player_entity, pad, fingerprint);
        roster.claim_unassigned(pad);
        joined.push(PlayerJoined { id, player_entity, gamepad: pad });
        proof {
            let after = newcomers(joined@);
            lemma_admitted_by(start, adopt_any, gamepads@, pads@.take(i - 1), before, after);
        }
    }
    assert(pads@.take(i as int) == pads@);
    Admissions { joined, reconnected, refused }
}

/// Advances the hold-to-leave timers and queues anyone who completed theirs.
pub fn track_leave_holds<M: Arithmetic>(
    roster: &mut PlayerRoster,
    config: &CouchConfig,
    dt: Single,
    players: &mut Vec<PlayerHold>,
    math: &M,
)
    requires
        old(roster)@.wf(),
    ensures
        final(roster)@.wf(),
        exists|outs: Seq<bool>|
            #[trigger] all_held_on(
                math,
                config.hold_secs(),
                dt,
                old(players)@,
                final(players)@,
                outs,
                old(players)@.len() as int,
            ) && final(roster)@ == (RosterView {
                leave_queue: walked_out(old(roster)@.leave_queue, old(players)@, outs),
                ..old(roster)@
            }),
{
    let required = config.leave_hold_secs();
    let zero = Single { bits: scalar::ZERO };
    let ghost before = players@;
    let ghost start = roster@;
    let ghost mut outs: Seq<bool> = Seq::empty();
    let mut i: usize = 0;
    while i < players.len()
        invariant
            zero == (Single { bits: scalar::ZERO }),
            roster@.wf(),
            i <= players.len(),
            all_held_on(math, required, dt, before, players@, outs, i as int),
            roster@ == (RosterView {
                leave_queue: walked_out(start.leave_queue, before, outs),
                ..start
            }),
        decreases players.len() - i,
    {
        let entry = players[i];
        let ghost so_far = outs;
        if !entry.holding {
            if !entry.hold.held_secs.equals(zero) || !entry.hold.required_secs.equals(required) {
                let hold = LeaveHold { held_secs: zero, required_secs: required };
                players[i] = PlayerHold { player: entry.player, holding: entry.holding, hold };
            }
            proof {
                outs = so_far.push(false);
                assert(outs.drop_last() == so_far);
            }
        } else {
            let held = math.plus(entry.hold.held_secs, dt);
            assert(arithmetic::sum(math, entry.hold.held_secs, dt, held));
            let out = required.at_most(held);
            let held_secs = if out {
                zero
            } else {
                held
            };
            let hold = LeaveHold { held_secs, required_secs: required };
            players[i] = PlayerHold { player: entry.player, holding: entry.holding, hold };
            if out {
                roster.queue_leave(entry.player, LeaveReason::Requested);
            }
            proof {
                outs = so_far.push(out);
                assert(outs.drop_last() == so_far);
            }
        }
        i += 1;
    }
    assert(all_held_on(math, required, dt, before, players@, outs, before.len() as int));
}

/// What expiry does to the leave queue: nothing where slots are held forever.
pub open spec fn after_expiry<M: Arithmetic>(
    math: &M,
    grace: Option<Single>,
    now: Double,
    before: RosterView,
    after: RosterView,
) -> bool {
    match grace {
        Some(grace) => exists|ids: Seq<PlayerId>| #[trigger]
            before.expired(math, grace, now, ids) && after == (RosterView {
                leave_queue: timed_out(before.leave_queue, ids),
                ..before
            }),
        None => after == before,
    }
}

/// Queues the players whose reconnect grace period has run out.
pub fn queue_expired<M: Arithmetic>(
    roster: &mut PlayerRoster,
    config: &CouchConfig,
    now: Double,
    math: &M,
)
    requires
        old(roster)@.wf(),
    ensures
        final(roster)@.wf(),
        after_expiry(math, config.reconnect.grace_secs, now, old(roster)@, final(roster)@),
{
    let ghost before = roster@;
    if let Some(grace) = config.reconnect.grace_secs {
        let ids = roster.expired_slots(grace, now, math);
        let mut i: usize = 0;
        while i < ids.len()
            invariant
                roster@.wf(),
                i <= ids.len(),
                roster@ == (RosterView {
                    leave_queue: timed_out(before.leave_queue, ids@.take(i as int)),
                    ..before
                }),
            decreases ids.len() - i,
        {
            proof {
                assert(ids@.take(i + 1).drop_last() == ids@.take(i as int));
                assert(ids@.take(i + 1).last() == ids@[i as int]);
            }
            roster.queue_leave(ids[i], LeaveReason::TimedOut);
            i += 1;
        }
        assert(ids@.take(i as int) == ids@);
        assert(before.expired(math, grace, now, ids@));
    }
}

/// The roster with its leave queue taken.
pub open spec fn without_leavers(roster: RosterView) -> RosterView {
    RosterView { leave_queue: Seq::empty(), ..roster }
}

/// Lets everybody go who is queued to leave. Returns who left, and the live
/// gamepads that have to be told to stop rumbling.
pub fn release_players(roster: &mut PlayerRoster, gamepads: &Vec<Gamepad>) -> (r: (
    Vec<PlayerLeft>,
    Vec<Entity>,
))
    requires
        old(roster)@.wf(),
    ensures
        final(roster)@.wf(),
        ({
            let after = departed(
                without_leavers(old(roster)@),
                gamepads@,
                old(roster)@.leave_queue,
            );
            final(roster)@ == after.roster && r.0@ == after.left && r.1@ == after.stopped
        }),
{
    let ghost start = without_leavers(roster@);
    let leaving = roster.take_leave_requests();
    let mut left: Vec<PlayerLeft> = Vec::new();
    let mut stopped: Vec<Entity> = Vec::new();
    let mut i: usize = 0;
    while i < leaving.len()
        invariant
            roster@.wf(),
            i <= leaving.len(),
            ({
                let after = departed(start, gamepads@, leaving@.take(i as int));
                roster@ == after.roster && left@ == after.left && stopped@ == after.stopped
            }),
        decreases leaving.len() - i,
    {
        let (id, reason) = leaving[i];
        let ghost before = roster@;
        proof {
            assert(leaving@.take(i + 1).drop_last() == leaving@.take(i as int));
            assert(leaving@.take(i + 1).last() == leaving@[i as int]);
        }
        i += 1;
        let (player_entity, device) = match roster.vacate(id) {
            Some(gone) => gone,
            None => {
                assert(before.vacate(id) == before);
                continue;
            },
        };
        left.push(PlayerLeft { id, player_entity, reason });
        if let Some(pad) = device.gamepad() {
            if gamepad::is_live(gamepads, pad) {
                // Their rumble goes with them, so nothing would ever tell the
                // motors to stop.
                stopped.push(pad);
                // A still-plugged-in pad goes back in the pool so it can
                // rejoin.
                roster.release_unassigned(pad);
            }
        }
    }
    assert(leaving@.take(i as int) == leaving@);
    (left, stopped)
}

/// What a frame did to the membership.
#[derive(Debug)]
pub struct MembershipChanges {
    /// Whether the number of slots changed.
    pub resized: bool,
    /// Who took a free slot.
    pub joined: Vec<PlayerJoined>,
    /// Who came back by joining.
    pub reconnected: Vec<PlayerReconnected>,
    /// The gamepads that asked to join and found no room.
    pub refused: Vec<Entity>,
    /// Who left. Their entities are to be despawned.
    pub left: Vec<PlayerLeft>,
    /// Live gamepads that have to be told to stop rumbling.
    pub stopped: Vec<Entity>,
}

/// The roster once the lobby has the size of the settings, if they changed.
pub open spec fn after_resize(roster: RosterView, changed: bool, max: u8) -> RosterView {
    if changed {
        roster.resize(max)
    } else {
        roster
    }
}

/// The roster before anybody is let in.
pub open spec fn before_admission(
    roster: RosterView,
    config: CouchConfig,
    changed: bool,
    gamepads: Seq<Gamepad>,
) -> RosterView {
    after_requests(
        after_resize(roster, changed, config.max_players),
        config.join_mode,
        gamepads,
    )
}

/// Letting in everybody who asked.
pub open spec fn admission(
    roster: RosterView,
    config: CouchConfig,
    gamepads: Seq<Gamepad>,
    spawned: Seq<Entity>,
) -> Admission {
    admitted(
        without_requests(roster),
        config.reconnect.adopt_any,
        gamepads,
        roster.join_queue,
        spawned,
    )
}

/// Applies join and leave rules: sizes the lobby, lets gamepads in, advances
/// the leave holds, expires slots, and lets players go. `changed` says whether
/// the settings changed since the last frame: an options menu can change the
/// lobby size mid-session.
pub fn process_membership<S: Fn(PlayerId, Entity) -> Entity, M: Arithmetic>(
    roster: &mut PlayerRoster,
    config: &CouchConfig,
    changed: bool,
    now: Double,
    dt: Single,
    gamepads: &Vec<Gamepad>,
    players: &mut Vec<PlayerHold>,
    spawn: &S,
    math: &M,
) -> (r: MembershipChanges)
    requires
        old(roster)@.wf(),
        ({
            let asking = before_admission(old(roster)@, *config, changed, gamepads@);
            forall|spawned: Seq<Entity>, k: int, id: PlayerId| #[trigger]
                opens_at(
                    without_requests(asking),
                    config.reconnect.adopt_any,
                    gamepads@,
                    asking.join_queue,
                    spawned,
                    k,
                    id,
                ) ==> call_requires(*spawn, (id, asking.join_queue[k]))
        }),
    ensures
        final(roster)@.wf(),
        r.resized == (changed && old(roster)@.resize(config.max_players).slots.len()
            != old(roster)@.slots.len()),
        forall|k: int|
            0 <= k < r.joined@.len() ==> call_ensures(
                *spawn,
                (r.joined@[k].id, r.joined@[k].gamepad),
                (#[trigger] r.joined@[k]).player_entity,
            ),
        ({
            let after = admission(
                before_admission(old(roster)@, *config, changed, gamepads@),
                *config,
                gamepads@,
                newcomers(r.joined@),
            );
            &&& r.joined@ == after.joined
            &&& r.reconnected@ == after.reconnected
            &&& r.refused@ == after.refused
            &&& settled(
                math,
                *config,
                now,
                dt,
                gamepads@,
                after.roster,
                old(players)@,
                final(players)@,
                final(roster)@,
                r.left@,
                r.stopped@,
            )
        }),
{
    let ghost start = roster@;
    let mut resized = false;
    if changed {
        resized = roster.resize(config.max_players);
    }
    queue_join_requests(roster, config, gamepads);
    assert(roster@ == before_admission(start, *config, changed, gamepads@));
    let admissions = admit_players(roster, config, gamepads, spawn);
    let ghost seated = roster@;
    let ghost before = players@;
    track_leave_holds(roster, config, dt, players, math);
    let ghost walked = roster@;
    queue_expired(roster, config, now, math);
    let ghost leaving = roster@;
    let (left, stopped) = release_players(roster, gamepads);
    proof {
        let outs = choose|outs: Seq<bool>|
            #[trigger] all_held_on(
                math,
                config.hold_secs(),
                dt,
                before,
                players@,
                outs,
                before.len() as int,
            ) && walked == (RosterView {
                leave_queue: walked_out(seated.leave_queue, before, outs),
                ..seated
            });
        assert(walked == after_holds(seated, before, outs));
        assert(after_expiry(
            math,
            config.reconnect.grace_secs,
            now,
            after_holds(seated, before, outs),
            leaving,
        ));
    }
    MembershipChanges {
        resized,
        joined: admissions.joined,
        reconnected: admissions.reconnected,
        refused: admissions.refused,
        left,
        stopped,
    }
}

/// The roster once those who completed their hold have asked to leave.
pub open spec fn after_holds(
    roster: RosterView,
    players: Seq<PlayerHold>,
    outs: Seq<bool>,
) -> RosterView {
    RosterView { leave_queue: walked_out(roster.leave_queue, players, outs), ..roster }
}

/// What follows the admissions of a frame: holds advance, slots expire, and
/// whoever is queued by then leaves.
pub open spec fn settled<M: Arithmetic>(
    math: &M,
    config: CouchConfig,
    now: Double,
    dt: Single,
    gamepads: Seq<Gamepad>,
    before: RosterView,
    players_before: Seq<PlayerHold>,
    players_after: Seq<PlayerHold>,
    after: RosterView,
    left: Seq<PlayerLeft>,
    stopped: Seq<Entity>,
) -> bool {
    exists|outs: Seq<bool>, leaving: RosterView|
        #[trigger] all_held_on(
            math,
            config.hold_secs(),
            dt,
            players_before,
            players_after,
            outs,
            players_before.len() as int,
        ) && #[trigger] after_expiry(
            math,
            config.reconnect.grace_secs,
            now,
            after_holds(before, players_before, outs),
            leaving,
        ) && (Departure { roster: after, left, stopped }) == departed(
            without_leavers(leaving),
            gamepads,
            leaving.leave_queue,
        )
}

} // verus!
