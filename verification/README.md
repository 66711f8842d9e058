# sketchgames

The rules of a few small games and tools, verified with Verus:

- `sketchrs`: a multiplayer drawing game (logins, words, guesses and their
  points, strokes, undo, the round's clock), plus a small event queue world.
- `sketch_bitaib`: a judged variant in which a drawing is scored against one
  word per round.
- `sketch_daily`: a daily challenge with one word per date and short ids for
  saved drawings.
- `file_cleaner`: finds texts that copy each other by their shared trigrams.
- `foo_parser`: an index from trigrams to the files that hold them.
- `the_decider`: the memory and decisions of a chat bot.
- `data_url`: the bytes of a `data:` URL.

`src/` is the verified library; the calls it makes into other crates stand
behind the trusted items of `src/foreign.rs`. `app/` holds the programs:
file walking, web and websocket servers, the database and the chat client.
`tests/` runs the library on concrete values.
