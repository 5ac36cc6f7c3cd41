# valv

A library and command-line tool for Valv vaults (the file format of the
Valv Android app): encrypting files into `.valv` files, decrypting them, and
mounting a vault directory as a plain directory that is kept in step with
the vault.

The library (`src/`) is verified with Verus:

- `crypto`: the v2 header (version, salt, nonce, PBKDF2 rounds, password
  check, metadata line) and the legacy v1 header, both written and read as
  bytes; the ChaCha20 keystream position; key derivation; and the proof that
  a file written header and payload, in any chunks, reads back to its
  metadata and data.
- `vault`: vault file names (suffixes, thumbnails, random names, mount
  directories; a random name is spelled exactly by the numbers drawn for
  it) and the file map of a mounted vault with its sync decisions:
  what to store, what to forget and delete, and whether a vault file is
  mounted, skipped or refuses the mount.
- `cli`: the mode and files a command line selects, output paths, when an
  output is written, the errors of the encrypt and decrypt commands, and the
  names decrypted files get (in a mount, always inside the mount directory).
- `text`, `paths`: character-level string operations and the `std::path`
  operations the rest relies on (file names, extensions, joins and the
  parents of plain paths, as they behave for Unix paths).

`app/` holds the command itself: argument parsing, password input, file and
stream I/O, the JSON of metadata and session files, child processes for
thumbnails, and the mount daemon's loop.
