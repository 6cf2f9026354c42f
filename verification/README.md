# harukacrypto

MTProto cryptography, verified with Verus: AES-256 in IGE and CTR mode (streaming, in place and
in batches), SHA-256, the MTProto 2.0 key derivation, and the packing and unpacking of encrypted
messages.

- `src/` is the library. `primitives` holds the calls into the AES, SHA-256 and random number
  crates; all else is proved against what is stated there.
- `tests/` runs the library on known values.
- `app/` is the Python extension module around it.
