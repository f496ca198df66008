# riichi

Rule logic of four-player riichi mahjong as a Verus library: every
function in `src/` carries a contract that Verus proves.

- `tile`, `counts`, `player`: tiles, kinds, calls and seat ids.
- `shanten`, `shape`: shanten of the standard shape, seven pairs and
  thirteen orphans; decompositions of complete hands.
- `yaku`, `fu`, `dora`, `evaluation`, `agari`: what a win is worth, both
  through the decomposition-based evaluator and the division scorer.
- `point`, `scoring`, `round_end`: payout tables, settlement of a win,
  exhaustive draws, aborts and the progress of a half game.
- `calls`, `declaration`, `conditions`, `kans`, `legal`: the offers and
  checks of a round — calls on a discard and their priority, riichi and
  its closed kans, ippatsu and first-turn wins, kans, legal actions.
- `execution`, `response`, `visibility`: what a seat's moves do to its hand
  and calls (discard, call, closed and added kan), the settlement of a
  response window (furiten, liability, several rons, a robbed kan), and
  the tiles a seat can see.
- `game`: the state of a round and its steps — dealing, drawing,
  discarding, answering a discard — each an exact function of the state,
  and the replay of a round's log, which gives back the state live play
  reached.
- `session`, `ai`: what a game session does with a turn, and the turn and
  call choices of the computer player around its analysis.
- `room`, `application`, `protocol`, `messages`, `channel`: rooms and seats,
  the server's command tracking and sequencing, and the per-player views
  sent on the wire.
- `notation`, `text`: the tile notation of the command-line tool.

`tests/` exercises the library on concrete hands and tables; `app/` is a
small interactive command-line tool built on it.
