# oort_ai

Ships for the Oort space simulation, in two parts.

- `src/` is the library: what ships decide. It is written in Verus, and every function states
  and proves what it does. Distances, times and angles enter as the bit patterns of
  non-negative double-precision numbers, which order as the numbers do (`measure`).
- `app/` is ordinary Rust around it: it reads the simulation, does the geometry and the
  estimation in floating point, asks the library, and carries out what it says.

| Module | What it decides |
| --- | --- |
| `radio` | which radio and channel carry a message, and which messages are authentic |
| `contact`, `radar`, `schedule` | which contacts exist, what a hit means, what each radar does next |
| `beam`, `slices` | which beam a tracking scan uses, and how a search proceeds |
| `aim`, `missile` | magazines, target reports, the guidance of missiles |
| `weapons`, `clusters`, `select`, `lookup` | sharing out targets, grouping, choosing |
| `cruiser`, `fighter`, `fighter_duel`, `mission_*`, `tutorial*` | the tactics of single ships |

Laws that relate several functions stand beside them as proof functions whose names start
with `law_`. One function, in `abilities`, calls the `oort_api` crate, and its contract is
taken on trust.
