# hangman

A hangman solver and client for a hangman game server, verified with Verus.

- `src/dict.rs`: the word list, sorted by byte length (stably) and indexed by length.
- `src/guesser.rs`: the letter guesser: narrows the candidate words to those that fit the
  current pattern and picks the most frequent letter not guessed yet.
- `src/game.rs`: the game's state machine: which request each operation sends, what each
  reply does to the game, and when an operation is refused.
- `src/driver.rs`: the solver's loop decisions: retrying failed exchanges, ending a word
  or the game, skipping short words, submitting the result.
- `src/protocol.rs`, `src/action.rs`, `src/error.rs`: the messages, the action names and the
  errors.
- `src/preprocess.rs`: turns a Windows-1251 word list into an upper-case ASCII dictionary.
- `src/text.rs`: char and string helpers.
- `app/`: the command-line program: file reading, JSON over HTTP, the game loop.
