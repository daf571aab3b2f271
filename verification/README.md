# Cheshire Chess

A chess program for the terminal: tactics puzzles, play against the engine,
mini-games, a piece editor and online rooms with tables and chat.

The library under `src/` holds the program's logic, each function with a
contract proved by Verus:

- `board` – bitboard positions, FEN reading, move generation, check, mate
- `engine` – evaluation, alpha-beta search and the ten opponents
- `puzzle` – puzzle file lines, the theme index and puzzle batches
- `server`, `session` – the game server's rooms, tables, moves and chat, and
  the FEN it sends
- `protocol` – the messages between client and server
- `client`, `panels`, `ui` – the client's screens as a state machine that
  answers keys and server messages with effects, and the text it shows
- `canvas`, `progress`, `settings`, `identity`, `minigames`, `tracker` – the
  piece editor and its save file, solved puzzles, sound settings, client ids,
  the knight's tour and colour quiz, and the tracker's HTTP handling
- `text`, `bits`, `clock` – strings, bitboard squares and the clock-based
  random value

`app/` is the program around it: the terminal loop and drawing, files,
sockets, threads and the synthesised sounds. Started with `server` or
`tracker` as its argument it runs the game server or the server tracker.
