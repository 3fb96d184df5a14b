# bevy_couch_multiplayer

Local co-op gamepad management and haptics, verified with Verus.

Controllers map to stable player slots, people join and leave mid-game, a yanked
cable holds the slot until the controller is back, and rumble is mixed per
player without stomping on itself. The rules for all of that are stated as
contracts and proved.

| Where | What |
| --- | --- |
| `src/player.rs`, `src/brand.rs` | Slots, devices, what is known of a controller, button labels |
| `src/config.rs`, `src/plugin.rs` | Settings |
| `src/roster.rs` | Who is playing, and on what |
| `src/devices.rs` | Hardware that comes and goes |
| `src/join.rs` | Joining, leaving, and the rules for both |
| `src/gamepad.rs`, `src/buttons.rs`, `src/input.rs` | A player's input |
| `src/pattern.rs`, `src/haptics.rs` | Envelopes of rumble, and what the motors are told |
| `src/params.rs` | Players addressed by slot |
| `src/*_laws.rs` | What holds across calls and frames |
| `src/scalar.rs`, `src/arithmetic.rs` | Floating-point values by their bits, and the operations on them |
| `src/rounding.rs` | What a few of the laws ask of those operations |
| `src/select.rs`, `src/entities.rs` | Searching slots and lists of entities |
| `app/` | The Bevy plugin: components, systems and the floating-point unit |
| `tests/` | The library run on concrete values |

Floating-point values are compared by the library and computed with through an
`Arithmetic` that the caller hands in. Its methods promise nothing, so every
contract says which operation was put to which values and holds whatever comes
back. A few laws speak of numbers; they name what they ask of the operations.

What is taken on trust is small: equality of `bevy_ecs` entities, the button
sets of `bevy_input::ButtonInput`, and the sharing of keyframes by `Arc::clone`.
