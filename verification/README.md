# mls_nack

Verification of complaints ("NACKs") about bad commits in a group with a ratchet tree.

A member that sends a commit may put bogus ciphertext into it. The affected member reveals the
shared secret under which its path secret was sent, with a proof that it is the right one. Any
other member can then decrypt the path secret and see whether the commit was bad.

- `src/nack.rs`: the messages, and `NackMsg::verify`
- `src/laws.rs`: what holds of every verification
- `src/tree_math.rs`: direct paths and common ancestors, with their laws
- `src/tree.rs`, `src/message.rs`: what a complaint refers to
- `src/codec.rs`, `src/constant_time.rs`, `src/secret.rs`: the calls into `parity-scale-codec`,
  `subtle` and `secrecy`
- `app/`: the wire form of the messages, and the calls into a group's cryptography

The cryptography of a group is handed to `verify` as calls. Nothing is taken for granted about
what they return: the contract says which calls are made, on which arguments, and what the
outcome is for each value that they return.
