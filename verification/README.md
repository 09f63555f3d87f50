# slate

Game-server logic for a MapleStory (v83) emulator, written in Verus: every
function under `src/` is verified, and each one that returns or changes
something states it in a contract that Verus proves.

- `src/shanda.rs`: the client's byte cipher, with proofs that decryption undoes
  encryption.
- `src/codec.rs`, `src/packet.rs`, `src/text.rs`: little-endian fields, the
  packet buffer (over `bytes::BytesMut`), number formatting and parsing.
- `src/login.rs`, `src/look.rs`: the login server's decisions and packets
  (login, pin and pic checks, world list, character list and creation).
- `src/channel.rs`, `src/maple.rs`: the world and channel servers' packets and
  decisions (entering the game, movement, portals, quests, chat, broadcasts).
- `src/nx.rs`, `src/nx_map.rs`, `src/quest.rs`, `src/sql.rs`: game data (maps,
  portals, NPCs, quests) as the data files and database rows describe it.
- `app/`: a command-line tool around the library (world list and status, maps,
  quests, addresses, packet routing); it reads files and the environment.
- `tests/`: tests of the library on concrete values.
