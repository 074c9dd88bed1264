# umasim

Rules of the ramen scenario of a training game, as a library whose functions are proved with
Verus against the contracts they state.

- `src/gamedata`: tables of characters, support cards, events and the scenario
- `src/game/base`, `src/game/uma.rs`, `src/game/support_card.rs`: what all scenarios share
- `src/game/ramen`: the scenario: recipes and gauges (`rules`), effects (`effects`), who stands
  where (`distribution`, `clones`, `hints`, `persons`), decisions and stages (`action`,
  `decisions`, `game`, `begin`, `story`), texts (`report`), the policy's barriers (`policy`), the
  layout of the policy head (`policy_schema`) and training samples (`training_sample`)
- `src/rng.rs`, `src/paint.rs`, `src/table.rs`: the calls into `rand`, `rand_distr`, `colored` and
  `comfy_table`
- `app`: data files, floating-point scores and the loop that plays a career
- `tests`: the library from outside

Percentages that can have fractions are kept in hundredths, and scores of rollouts by their bits.
`src/single.rs` computes with numbers of single and double precision on integers, so that the
library needs no floating point.
