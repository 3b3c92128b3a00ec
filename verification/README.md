# uniseal

A file vault bound to Logitech Unifying receivers. A vault is a header of keyslots around a random
file key, and a body encrypted in chunks under that key. A keyslot opens with the receivers, with a
passphrase, or with both.

- `src/`: the library, verified with Verus. `vault` holds the format, the keyslots, sealing and
  opening; `fingerprint` and `hid` hold what is asked of the receivers and what their answers mean;
  `fsio`, `selfcheck`, `cli` and `gui` hold what the program decides and says.
- `app/`: the program around it: arguments, files, the receivers on the bus, and the window.
- `tests/`: tests of the library.

The library performs no input or output. Where data has to come from or go to a stream, a device or
the user, it is a state machine: it says what it wants done, and the caller hands in what came of
it. The primitives (HKDF, Argon2id, XChaCha20-Poly1305, SHA-256, the system's random numbers, wiping
of secrets) are calls into other crates; `vault/crypto.rs` and `vault/secret.rs` state what is relied
on.

The window reads its fonts from `assets/fonts`, or from the directory that `UNISEAL_FONTS` names.
