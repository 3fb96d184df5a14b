//! Players addressed by slot, for gameplay code: it usually thinks in *slots*
//! ("did P2 press start?", "buzz everyone").

use crate::buttons;
use crate::buttons::GamepadButton;
use crate::haptics;
use crate::haptics::{Rumble, RumbleHandle, RumbleTrack};
use crate::input::PlayerInput;
use crate::pattern::RumblePattern;
use crate::player::{Player, PlayerId};
use crate::scalar;
use crate::scalar::Single;
use crate::select;
use vstd::prelude::*;

verus! {

/// Read-only access to every player's input, addressed by slot.
#[derive(Debug)]
pub struct Players<'a> {
    /// Every joined player with their input.
    pub inputs: Vec<(Player, &'a PlayerInput)>,
}

/// The entry of this player.
pub open spec fn entry_of<T>(entries: Seq<(Player, T)>, id: PlayerId) -> spec_fn(int) -> bool {
    |i: int| entries[i].0.id == id
}

/// Where the first entry of this player is.
pub open spec fn seat<T>(entries: Seq<(Player, T)>, id: PlayerId) -> Option<int> {
    select::first(entries.len(), entry_of(entries, id))
}

/// Whose controller is attached.
pub open spec fn attached<'a>(entries: Seq<(Player, &'a PlayerInput)>) -> spec_fn(int) -> bool {
    |i: int| entries[i].1.connected
}

/// The numbered entries, by slot.
pub open spec fn listed<'a>(
    entries: Seq<(Player, &'a PlayerInput)>,
    numbers: Seq<int>,
) -> Seq<(PlayerId, &'a PlayerInput)> {
    Seq::new(numbers.len(), |k: int| (entries[numbers[k]].0.id, entries[numbers[k]].1))
}

/// The entry's player pressed this button in this frame.
pub open spec fn pressed_now<'a>(
    entry: (Player, &'a PlayerInput),
    button: GamepadButton,
) -> bool {
    buttons::fresh(entry.1.buttons).contains(button.number())
}

impl<'a> Players<'a> {
    /// One player's input, or `None` if that slot is empty.
    pub fn get(&self, id: PlayerId) -> (r: Option<&'a PlayerInput>)
        ensures
            match seat(self.inputs@, id) {
                Some(i) => r == Some(self.inputs@[i].1),
                None => r is None,
            },
    {
        let ghost test = entry_of(self.inputs@, id);
        let mut i: usize = 0;
        while i < self.inputs.len()
            invariant
                i <= self.inputs.len(),
                test == entry_of(self.inputs@, id),
                forall|k: int| 0 <= k < i ==> !#[trigger] test(k),
            decreases self.inputs.len() - i,
        {
            if self.inputs[i].0.id == id {
                proof {
                    assert(test(i as int));
                    select::lemma_first_is(self.inputs@.len(), test, i as int);
                }
                return Some(self.inputs[i].1);
            }
            assert(!test(i as int));
            i += 1;
        }
        proof {
            select::lemma_first(self.inputs@.len(), test);
        }
        None
    }

    /// Every joined player, including ones whose controller is unplugged
    /// (their input reads neutral).
    pub fn iter(&self) -> (r: Vec<(PlayerId, &'a PlayerInput)>)
        ensures
            r@ == listed(self.inputs@, Seq::new(self.inputs@.len(), |i: int| i)),
    {
        let mut all: Vec<(PlayerId, &'a PlayerInput)> = Vec::new();
        let mut i: usize = 0;
        while i < self.inputs.len()
            invariant
                i <= self.inputs.len(),
                all@ == listed(self.inputs@, Seq::new(i as nat, |i: int| i)),
            decreases self.inputs.len() - i,
        {
            all.push((self.inputs[i].0.id, self.inputs[i].1));
            i += 1;
        }
        all
    }

    /// Only players with a controller attached right now.
    pub fn connected(&self) -> (r: Vec<(PlayerId, &'a PlayerInput)>)
        ensures
            r@ == listed(
                self.inputs@,
                select::selected(self.inputs@.len(), attached(self.inputs@)),
            ),
    {
        let ghost test = attached(self.inputs@);
        let mut some: Vec<(PlayerId, &'a PlayerInput)> = Vec::new();
        let mut i: usize = 0;
        while i < self.inputs.len()
            invariant
                i <= self.inputs.len(),
                test == attached(self.inputs@),
                some@ == listed(self.inputs@, select::selected(i as nat, test)),
            decreases self.inputs.len() - i,
        {
            assert(test(i as int) == self.inputs@[i as int].1.connected);
            if self.inputs[i].1.connected {
                some.push((self.inputs[i].0.id, self.inputs[i].1));
            }
            i += 1;
            assert(some@ == listed(self.inputs@, select::selected(i as nat, test)));
        }
        some
    }

    /// How many players have joined.
    pub fn count(&self) -> (r: usize)
        ensures
            r == self.inputs@.len(),
    {
        self.inputs.len()
    }

    /// Whether nobody has joined yet.
    pub fn is_empty(&self) -> (r: bool)
        ensures
            r == (self.inputs@.len() == 0),
    {
        self.count() == 0
    }

    /// The lowest-numbered player who pressed `button` this frame. Good for
    /// "press A to continue" prompts where any player may answer.
    pub fn who_just_pressed(&self, button: GamepadButton) -> (r: Option<PlayerId>)
        ensures
            r is Some <==> exists|i: int|
                0 <= i < self.inputs@.len() && pressed_now(#[trigger] self.inputs@[i], button),
            r matches Some(id) ==> {
                &&& exists|i: int|
                    0 <= i < self.inputs@.len() && pressed_now(#[trigger] self.inputs@[i], button)
                        && self.inputs@[i].0.id == id
                &&& forall|i: int|
                    0 <= i < self.inputs@.len() && pressed_now(#[trigger] self.inputs@[i], button)
                        ==> id.0 <= self.inputs@[i].0.id.0
            },
    {
        let mut lowest: Option<PlayerId> = None;
        let mut i: usize = 0;
        while i < self.inputs.len()
            invariant
                i <= self.inputs.len(),
                lowest is Some <==> exists|k: int|
                    0 <= k < i && pressed_now(#[trigger] self.inputs@[k], button),
                lowest matches Some(id) ==> {
                    &&& exists|k: int|
                        0 <= k < i && pressed_now(#[trigger] self.inputs@[k], button)
                            && self.inputs@[k].0.id == id
                    &&& forall|k: int|
                        0 <= k < i && pressed_now(#[trigger] self.inputs@[k], button) ==> id.0
                            <= self.inputs@[k].0.id.0
                },
            decreases self.inputs.len() - i,
        {
            let id = self.inputs[i].0.id;
            if self.inputs[i].1.just_pressed(button) {
                assert(pressed_now(self.inputs@[i as int], button));
                let lower = match lowest {
                    Some(known) => id.0 < known.0,
                    None => true,
                };
                if lower {
                    lowest = Some(id);
                }
            }
            i += 1;
        }
        lowest
    }

    /// Whether anyone pressed `button` this frame.
    pub fn any_just_pressed(&self, button: GamepadButton) -> (r: bool)
        ensures
            r == exists|i: int|
                0 <= i < self.inputs@.len() && pressed_now(#[trigger] self.inputs@[i], button),
    {
        self.who_just_pressed(button).is_some()
    }
}

/// Play rumble on a player, or on everyone.
///
/// Requests for a player whose controller is unplugged never reach any motors
/// and are dropped in the next frame, so callers don't have to check.
#[derive(Debug)]
pub struct Haptics {
    /// Every joined player with their channel.
    pub rumbles: Vec<(Player, Rumble)>,
}

/// The channels with the one at `i` replaced.
pub open spec fn with_channel(
    entries: Seq<(Player, Rumble)>,
    i: int,
    rumble: Rumble,
) -> Seq<(Player, Rumble)> {
    entries.update(i, (entries[i].0, rumble))
}

/// `after` has the same players as `before`, channel by channel what `change`
/// allows.
pub open spec fn everyone(
    before: Seq<(Player, Rumble)>,
    after: Seq<(Player, Rumble)>,
    change: spec_fn(Rumble, Rumble) -> bool,
) -> bool {
    &&& after.len() == before.len()
    &&& forall|i: int|
        0 <= i < before.len() ==> (#[trigger] after[i]).0 == before[i].0 && change(
            before[i].1,
            after[i].1,
        )
}

/// One more effect plays, at the default priority.
pub open spec fn plays_too(pattern: RumblePattern) -> spec_fn(Rumble, Rumble) -> bool {
    |before: Rumble, after: Rumble|
        exists|handle: RumbleHandle| #[trigger] before.plays(pattern, 0, handle, after)
}

/// Nothing plays anymore.
pub open spec fn falls_silent() -> spec_fn(Rumble, Rumble) -> bool {
    |before: Rumble, after: Rumble|
        {
            &&& after.tracks@ == Seq::<RumbleTrack>::empty()
            &&& after == (Rumble { tracks: after.tracks, ..before })
        }
}

impl Haptics {
    /// This player's haptics channel, for anything the shortcuts below don't
    /// cover.
    pub fn get_mut(&mut self, id: PlayerId) -> (r: Option<&mut Rumble>)
        ensures
            match seat(old(self).rumbles@, id) {
                Some(i) => {
                    &&& r is Some
                    &&& *r->0 == old(self).rumbles@[i].1
                    &&& final(self).rumbles@ == with_channel(
                        old(self).rumbles@,
                        i,
                        *final(r->0),
                    )
                },
                None => r is None && *final(self) == *old(self),
            },
    {
        let ghost test = entry_of(self.rumbles@, id);
        let mut i: usize = 0;
        while i < self.rumbles.len()
            invariant
                *self == *old(self),
                i <= self.rumbles.len(),
                test == entry_of(self.rumbles@, id),
                forall|k: int| 0 <= k < i ==> !#[trigger] test(k),
            decreases self.rumbles.len() - i,
        {
            if self.rumbles[i].0.id == id {
                proof {
                    assert(test(i as int));
                    select::lemma_first_is(self.rumbles@.len(), test, i as int);
                }
                return Some(&mut self.rumbles[i].1);
            }
            assert(!test(i as int));
            i += 1;
        }
        proof {
            select::lemma_first(self.rumbles@.len(), test);
        }
        None
    }

    /// Play a pattern for one player. `None` if that slot is empty.
    pub fn play(&mut self, id: PlayerId, pattern: RumblePattern) -> (r: Option<RumbleHandle>)
        ensures
            match seat(old(self).rumbles@, id) {
                Some(i) => r is Some && old(self).rumbles@[i].1.plays(
                    pattern,
                    0,
                    r->0,
                    final(self).rumbles@[i].1,
                ) && final(self).rumbles@ == with_channel(
                    old(self).rumbles@,
                    i,
                    final(self).rumbles@[i].1,
                ),
                None => r is None && *final(self) == *old(self),
            },
    {
        self.play_with_priority(id, pattern, 0)
    }

    /// Play a pattern that outranks (and silences) lower-priority effects.
    pub fn play_with_priority(
        &mut self,
        id: PlayerId,
        pattern: RumblePattern,
        priority: u8,
    ) -> (r: Option<RumbleHandle>)
        ensures
            match seat(old(self).rumbles@, id) {
                Some(i) => r is Some && old(self).rumbles@[i].1.plays(
                    pattern,
                    priority,
                    r->0,
                    final(self).rumbles@[i].1,
                ) && final(self).rumbles@ == with_channel(
                    old(self).rumbles@,
                    i,
                    final(self).rumbles@[i].1,
                ),
                None => r is None && *final(self) == *old(self),
            },
    {
        proof {
            select::lemma_first(self.rumbles@.len(), entry_of(self.rumbles@, id));
        }
        match self.get_mut(id) {
            Some(rumble) => Some(rumble.play_with_priority(pattern, priority)),
            None => None,
        }
    }

    /// Play the same pattern for everyone: an explosion, a round ending.
    pub fn play_all(&mut self, pattern: RumblePattern)
        ensures
            everyone(old(self).rumbles@, final(self).rumbles@, plays_too(pattern)),
    {
        let ghost before = self.rumbles@;
        let ghost change = plays_too(pattern);
        let mut i: usize = 0;
        while i < self.rumbles.len()
            invariant
                change == plays_too(pattern),
                self.rumbles@.len() == before.len(),
                i <= before.len(),
                forall|k: int|
                    0 <= k < i ==> (#[trigger] self.rumbles@[k]).0 == before[k].0 && change(
                        before[k].1,
                        self.rumbles@[k].1,
                    ),
                forall|k: int| i <= k < before.len() ==> #[trigger] self.rumbles@[k] == before[k],
            decreases before.len() - i,
        {
            let handle = self.rumbles[i].1.play(pattern.clone());
            assert(before[i as int].1.plays(pattern, 0, handle, self.rumbles@[i as int].1));
            assert(change(before[i as int].1, self.rumbles@[i as int].1));
            i += 1;
        }
    }

    /// Stop one effect on one player. See [`Rumble::stop`].
    pub fn stop(&mut self, id: PlayerId, handle: RumbleHandle) -> (r: bool)
        ensures
            match seat(old(self).rumbles@, id) {
                Some(i) => {
                    let before = old(self).rumbles@[i].1;
                    let after = final(self).rumbles@[i].1;
                    &&& r == before.runs(handle)
                    &&& after.tracks@ == before.tracks@.filter(haptics::other_than(handle.id()))
                    &&& after == (Rumble { tracks: after.tracks, ..before })
                    &&& final(self).rumbles@ == with_channel(old(self).rumbles@, i, after)
                },
                None => !r && *final(self) == *old(self),
            },
    {
        proof {
            select::lemma_first(self.rumbles@.len(), entry_of(self.rumbles@, id));
        }
        match self.get_mut(id) {
            Some(rumble) => rumble.stop(handle),
            None => false,
        }
    }

    /// Silence one player.
    pub fn stop_player(&mut self, id: PlayerId)
        ensures
            match seat(old(self).rumbles@, id) {
                Some(i) => {
                    let before = old(self).rumbles@[i].1;
                    let after = final(self).rumbles@[i].1;
                    &&& after.tracks@ == Seq::<RumbleTrack>::empty()
                    &&& after == (Rumble { tracks: after.tracks, ..before })
                    &&& final(self).rumbles@ == with_channel(old(self).rumbles@, i, after)
                },
                None => *final(self) == *old(self),
            },
    {
        proof {
            select::lemma_first(self.rumbles@.len(), entry_of(self.rumbles@, id));
        }
        match self.get_mut(id) {
            Some(rumble) => {
                rumble.stop_all();
            },
            None => {},
        }
    }

    /// Silence everyone: pause menus, cutscenes, the end of a round.
    pub fn stop_all(&mut self)
        ensures
            everyone(old(self).rumbles@, final(self).rumbles@, falls_silent()),
    {
        let ghost before = self.rumbles@;
        let ghost change = falls_silent();
        let mut i: usize = 0;
        while i < self.rumbles.len()
            invariant
                change == falls_silent(),
                self.rumbles@.len() == before.len(),
                i <= before.len(),
                forall|k: int|
                    0 <= k < i ==> (#[trigger] self.rumbles@[k]).0 == before[k].0 && change(
                        before[k].1,
                        self.rumbles@[k].1,
                    ),
                forall|k: int| i <= k < before.len() ==> #[trigger] self.rumbles@[k] == before[k],
            decreases before.len() - i,
        {
            self.rumbles[i].1.stop_all();
            assert(change(before[i as int].1, self.rumbles@[i as int].1));
            i += 1;
        }
    }
}

/// A player is found by their slot, wherever they stand in the list; nobody is
/// found where nobody has that slot.
pub proof fn law_players_are_found_by_slot<T>(entries: Seq<(Player, T)>, id: PlayerId)
    ensures
        seat(entries, id) matches Some(i) ==> 0 <= i < entries.len() && entries[i].0.id == id,
        seat(entries, id) is None <==> forall|i: int|
            0 <= i < entries.len() ==> (#[trigger] entries[i]).0.id != id,
{
    let test = entry_of(entries, id);
    select::lemma_first(entries.len(), test);
    if seat(entries, id) is None {
        assert forall|i: int| 0 <= i < entries.len() implies (#[trigger] entries[i]).0.id
            != id by {
            assert(!test(i));
        }
    }
}

/// Exactly the players with a controller attached are listed as connected, each
/// with their own input, in the order of the list.
pub proof fn law_connected_players_are_listed<'a>(
    entries: Seq<(Player, &'a PlayerInput)>,
    i: int,
)
    requires
        0 <= i < entries.len(),
    ensures
        ({
            let some = listed(entries, select::selected(entries.len(), attached(entries)));
            &&& some.len() <= entries.len()
            &&& entries[i].1.connected ==> some.contains((entries[i].0.id, entries[i].1))
            &&& forall|k: int|
                0 <= k < some.len() ==> (#[trigger] some[k]).1.connected && exists|j: int|
                    0 <= j < entries.len() && some[k] == ((#[trigger] entries[j]).0.id, entries[j].1)
        }),
{
    let test = attached(entries);
    let numbers = select::selected(entries.len(), test);
    let some = listed(entries, numbers);
    select::lemma_selected(entries.len(), test);
    assert forall|k: int| 0 <= k < some.len() implies (#[trigger] some[k]).1.connected && exists|
        j: int,
    |
        0 <= j < entries.len() && some[k] == ((#[trigger] entries[j]).0.id, entries[j].1) by {
        assert(test(numbers[k]));
        let j = numbers[k];
        assert(some[k] == (entries[j].0.id, entries[j].1));
    }
    if entries[i].1.connected {
        assert(test(i));
        assert(numbers.contains(i));
        let k = choose|k: int| 0 <= k < numbers.len() && numbers[k] == i;
        assert(some[k] == (entries[i].0.id, entries[i].1));
    }
}

/// What is played for everyone is played once on every channel, from its start
/// and at the lowest priority, beside what plays there; silence leaves nothing.
pub proof fn law_everyone_is_reached(
    before: Seq<(Player, Rumble)>,
    after: Seq<(Player, Rumble)>,
    pattern: RumblePattern,
    i: int,
)
    requires
        0 <= i < before.len(),
    ensures
        everyone(before, after, plays_too(pattern)) ==> {
            let old_tracks = before[i].1.tracks@;
            let new_tracks = after[i].1.tracks@;
            &&& after[i].0 == before[i].0
            &&& new_tracks.len() == old_tracks.len() + 1
            &&& new_tracks.drop_last() == old_tracks
            &&& new_tracks.last().pattern == pattern
            &&& new_tracks.last().priority == 0
            &&& new_tracks.last().elapsed.same(Single { bits: scalar::ZERO })
        },
        everyone(before, after, falls_silent()) ==> after[i].0 == before[i].0
            && after[i].1.tracks@.len() == 0,
{
    if everyone(before, after, plays_too(pattern)) {
        assert((plays_too(pattern))(before[i].1, after[i].1));
        assert(after[i].1.tracks@.drop_last() == before[i].1.tracks@);
    }
    if everyone(before, after, falls_silent()) {
        assert((falls_silent())(before[i].1, after[i].1));
    }
}

/// Only a press of this very frame counts: the button went down in it, on that
/// player's own input.
pub proof fn law_only_new_presses_count<'a>(
    entry: (Player, &'a PlayerInput),
    button: GamepadButton,
)
    ensures
        pressed_now(entry, button) <==> buttons::fresh(entry.1.buttons).contains(button.number()),
{
}

} // verus!
