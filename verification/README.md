# dragons_hoard_engine

The rules of a small floor of slot cabinets, written in Verus and proved
against their contracts.

- `src/data` — a cabinet's data: symbols and paytables, strips, paylines,
  the rules of every feature, the checks a cabinet must pass before it is
  played (`validate`), building one from its parsed parts (`load`), and the
  words a refused cabinet is refused with (`messages`).
- `src/engine` — one spin: the grid the stops show (`reels`), how a grid
  pays by lines, ways or clusters (`evaluate`, `cluster`), cascades
  (`cascade`), the seam feature (`seam`), and the round counting of a
  simulation (`sim`).
- `src/state` — what a spin did to a session, the free-spin feature, the
  cards a spin earns, and the session itself (`session`): stake, spin,
  settle, bet, feature buy, unattended runs and the run length the player
  picked.
- `src/game`, `src/actions` — the intents a player can make, the menu's
  screens, the session-limit gate, and what the game does about an outcome.
- `app/` — a headless runner that reads a cabinet's files, draws the stops,
  and reports the return.

Randomness never enters `src/`: stops, height draws and rolls arrive as
values already drawn.
