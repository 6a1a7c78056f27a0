# turicraft

The core of the Turi Craft launcher (a Minecraft launcher for one modded
server), written in Verus: what it decides is stated in contracts and proved.

- `src/` — the library: paths that stay inside their directory, sign-in
  (URLs, redirect, PKCE, offline identity), Mojang's version files, libraries,
  assets and command line, Java runtimes, NeoForge, packwiz output and
  choices, the quality presets (resolving the player's choices, writing
  `options.txt`, properties, JSON and TOML files, taking back what was changed in
  game), the main screen's description, the server ping, crash reports.
- `tests/` — tests of the library on concrete values.
- `app/` — a command-line launcher around the library: downloads, processes,
  files, the system's keyring, hardware probes (floating point), and the
  serde copies of the library's types.
