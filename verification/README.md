# seald

Seals files with a passphrase, and opens them again.

- `src/` is the library, with its contracts and their proofs: the `.sld` format, the rules
  for passphrases and key-derivation costs, sealing and opening.
- `app/` is the program around it: command line, files, standard streams, and a C interface.
- `tests/` runs the library on concrete values.

A `.sld` file is a header of 39 bytes and a run of records. All integers are little-endian.

| Header field | Bytes |
|---|---:|
| `SLD` and a 1 | 4 |
| header version, key derivation, cipher (each 1) | 3 |
| Argon2id memory cost in KiB, 8192 to 262144 | 4 |
| Argon2id time cost, 1 to 10 | 4 |
| Argon2id parallelism, 1 to 8 | 4 |
| plaintext bytes per chunk, 262144 | 4 |
| salt | 16 |

| Record field | Bytes |
|---|---:|
| index, counted from 0 | 8 |
| nonce | 12 |
| length of the plaintext | 4 |
| ChaCha20-Poly1305 ciphertext and tag | length + 16 |

Every record authenticates the header, without its first four bytes, and its own index. The
last record holds no plaintext: it is the final marker. A file without it, or with anything
behind it, is refused.

What the proofs rest on is in `src/external.rs`: the contracts of the outside functions.
