# catch_mouse

"Catch the mouse" is a two-player game on a 13 x 13 hex board, played over
TCP: the hunter blocks one free cell per turn, the mouse (a second player or
the computer) steps to a neighbouring cell and wins on reaching the rim; the
hunter wins once the mouse cannot move.

- `src/` is the verified game logic:
  - `board.rs`: the board, neighbour tests, the blocking test and the
    computer mouse's move;
  - `lobby.rs`: the server's games in progress and their players;
  - `game.rs`: reading a move's text and playing it in a lobby;
  - `session.rs`: what the server does with each message of a client;
  - `client.rs`: the client's screen layout, clicks and replies.
- `app/` holds the two programs around it (`server`, and `client` with SDL2):
  sockets, threads and drawing.
- `tests/` runs the library on concrete games.
