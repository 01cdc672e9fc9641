# tank_game

The logic of a small multiplayer tank game server, verified with Verus.

- `src/game/` — the game: units (players, tanks, walls), the broker that
  routes events between them and runs the system queue, the field on which
  tanks and walls stand, the shapes every game stays in, and the keys it
  hands out, each new when registered.
  A unit or field object that another replaces under its key is kept, and
  the channels and tanks that hold it still reach it.
- `src/room_manager.rs`, `src/logic.rs`, `src/message_manager.rs`,
  `src/handler.rs` — which room a message goes to, what a room does with a
  message and on each tick, and what a connection's request and messages say.
- `app/` — the server itself: the WebSocket listener, the threads that route
  messages, run the games and send answers, and the JSON forms of the values.

Field coordinates are whole numbers; they are written to clients as numbers
with a fractional part.
