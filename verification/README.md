# arm_rules

A rules engine for Ars Magica 5th Edition character generation, written in
Verus: every computation carries a contract and is proved against it.

## Layout

- `src/` — the verified library.
  - `types`, `entity`, `ruleset`, `catalog`, `equipment` — the data model: a
    character's recorded choices and the catalogues the rules read.
  - `grant`, `house`, `mythic_companion` — free Virtues/Flaws granted by a
    House, a Mythic Companion type or another Virtue, resolved against the
    player's picks.
  - `effective` — effective scores and limits folded from the declared
    effects of every Virtue and Flaw: Abilities, Arts, Characteristics (limits,
    deltas, aging), Might, Confidence, spell levels and mastery, Warping and
    Decrepitude, and the experience allocation (`effective::xp`), a maximum
    flow over the entity's pools (`effective::flow`), proved maximum against
    the flow and cut definitions of `effective::cut`; the general pool is
    drawn only for what the restricted pools cannot fund
    (`law_general_draw_is_least`). The solve itself is specified:
    `edmonds_karp` is the breadth-first augmenting-path algorithm as spec
    functions, and each pool's reported draw is what the two-phase solve
    (`xp_residual`) takes over that pool's edge, so the allocation is a
    function of its inputs (`law_the_allocation_is_determined`).
  - `life_stage` — the life-stage experience budget and the Hermetic-minimum
    checklist.
  - `derived` — Soak, Encumbrance, combat lines, Fatigue and Wound bands.
  - `validation` — the Virtue/Flaw point balance and its ceilings.
  - `export` — the Markdown character sheet, which refuses to render when a
    label it needs is missing: it fails exactly when a label in
    `needed_labels` does not resolve, and names every such label. Every
    section has a specification of its exact text and of the labels it
    reads, and the document is the head followed by the sections in order.
  - `text` — character-level string helpers.
- `app/` — the JSON edge: serde mirrors of the catalogue and plan types and
  the loaders that read them.
- `tests/` — the test suite.

The laws the library keeps are public proof functions named `law_*`, beside
the functions they speak of.
