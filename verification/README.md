# server

A text MUD in a xianxia setting: players log in over a WebSocket, walk the
rooms of a zone, talk to NPCs, take and finish quests, work, rest and fight.
A second, smaller game mode is a combat arena.

- `src/` is the game itself, written in Verus: command parsing, the world
  and its rooms, NPCs and items, quests and rewards, combat rounds and
  ticks, the session lifecycle (connect, login, heartbeat, disconnect), the
  styled text sent to clients, and the data loader that builds the world
  from parsed data files. Every function carries a contract and is proved;
  `src/laws.rs` states the properties that span several functions.
- `app/` is the server around it: the WebSocket endpoints, the game loops,
  reading the data files, rendering styled text as ANSI colour, and the
  push notifications.
- `tests/` runs the library on concrete values.
