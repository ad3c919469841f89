# chadow_launcher

The logic of the Chadow Games launcher for Minecraft, verified with Verus.

`src/` is the library. Each module states its behaviour in `requires`/`ensures`
over spec functions on `Seq`, and Verus proves the code against them:

- `text`: character-level string operations (trim, split, replace, decimals, file
  extensions) with their specifications.
- `paths`: every location the launcher uses, as a root plus joined segments.
- `ping`: the server list ping (VarInt framing, handshake, status reply).
- `digest`: SHA-1/SHA-256 digests in hex and how expected digests are compared.
- `install`: which libraries apply, where their files go, the class path, client
  packs, download decisions and progress.
- `launch`: choosing the server, argument rules and placeholders, and the Java
  command line.
- `profile`: the player's profile and where each game is installed.
- `remote`: API addresses, how replies are judged, and waiting for a server.
- `fabric`: mods and merging the Fabric profile.
- `commands`, `client_zip`: checks made before commands act, and packaging the client.

Public proof functions state the laws that span several functions, such as the
VarInt encoding reading back what was written, or a chosen install folder being
the one used afterwards.

`app/` holds what stays outside the proofs: the disk, the network, archives, the
game process, and the JSON forms of the library's types.
