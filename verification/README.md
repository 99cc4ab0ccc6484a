# brokeamu

A bridge between a remote card reader and arcade game emulators on Windows
(spice for Konami games, segatools for Sega games). The reader sends
seventeen-byte packets over TCP; the bridge logs the scanned card in by
writing it to the emulator's card file and pressing the emulator's key, and
turns coin, test and service packets into key presses.

- `src/` is the library, verified with Verus: card access codes
  (`card`, `numeric`), the AiMeDB access-code cache and the reading of the
  card service's replies (`aimedb`, through serde_json), the emulators'
  configuration files, read with quick-xml (`xml`, `game`), the key bindings
  and actions of each game (`game`), and the packets (`packet`).
- `app/` is the program around it: the TCP listener, the Windows process
  and keyboard calls, reading files and the web request (reqwest).
- `tests/` runs the library on concrete inputs.
