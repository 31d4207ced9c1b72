# cr_arena

The rules of a two-player lane battle that runs in lockstep, as a verified library: two peers
that feed the same commands to the same state stay in the same state, and everything that decides
so is proved against its contract with Verus.

* `src/` is the library. `scalar` and `fixed` are the numbers, `components`, `buffs` and `world`
  the state, `combat`, `cards`, `spawn`, `volley`, `elixir` and `match_flow` the rules, `sim` the
  tick that puts them together, `tally` what a run of ticks counts. `net`, `client`, `protocol`,
  `replay`, `recording` and `relay` are what peers exchange; `fidelity` holds the laws of
  reproduction, `identity` those of who is on the field, `refusal` those of commands that come to
  nothing. `sim_env` and `bot` are for learning agents, `hud`, `input` and `deploy_zone` for the
  screen. `skirmish` is a compact form of the battle.
* `tests/` runs the library.
* `app/` holds the programs: the game, the relay (`relay`), a self-play benchmark (`selfplay`) and
  the Python environment. It does the input and output, and lends the library single-precision
  numbers. The game draws in lines; `bevy` is taken without a window and graphics backend, whose
  features (`bevy_winit`, `bevy_gizmos_render`) are switched on where the game is to be played.

The client plays in `f32`; the library itself is generic over its numbers, with the fixed-point
`Fixed` as an instance that behaves the same on every machine. What the proofs rest on besides
Verus is marked `external_body`: the repeating timer of `bevy` and `HashMap::retain`.
