# kaban-chat

The logic of a chat, verified with Verus, and the programs around it.

The server and the clients exchange messages: a username and a content. A message travels as a
paket, its JSON text between two bytes that occur in no UTF-8 text.

## The library (`src/`)

- `username.rs`, `message.rs`, `dispatch.rs`, `error.rs`, `constant.rs`: the units of information.
  `Message::paket` makes a paket of a message, `Message::from_paket` reads one; the JSON parser is
  handed to it. Each error has a `text` in which it is shown.
- `json.rs`: the JSON text of a message, and the call of `serde_json` that writes it.
- `text.rs`: facts about UTF-8, and the operations of std on text that are used.
- `extractor.rs`: `PaketsExtractor` cuts what is read from a connection into pakets.
- `prompt.rs`: `Stdin2Tcp` decides what a client does about what its user types.
- `server.rs`: `ServerManager`, `ClientReader` and `client_handler_outcome` decide for the server.
- `random.rs`: random texts and messages.
- `laws.rs`: what holds of the library as a whole, such as that what users type comes back
  at the other end however a connection divides the stream.

## The programs (`app/`)

`kaban_chat server` runs the server, `kaban_chat client` a client. `app/` reads, writes and waits,
and asks the library what to do.
