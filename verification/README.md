# ponged

A Pong for two players over the network, and the gateway that brings them
together. The rules of both are a verified library; the window, the network and
the files are ordinary Rust around it.

- `src/` is the library. Every function states in its contract what it returns
  and changes, and Verus proves it. It is pure: what is stored, sent and shown
  goes in and out as plain values.
- `tests/` runs the library on concrete values, together with the crates that it
  calls.
- `app/` is the two programs: the gateway (libp2p node, SQLite file, HTTP server)
  and the game (Bevy window, libp2p swarm, simulation thread, SQLite files). The
  physics and the interpolation live there, since they are floating-point
  arithmetic.

## The gateway

Players register, and the gateway certifies their ratings with its Ed25519 key.
They wait in a queue; neighbours by rating are paired and told of each other.
Each match is reported by both of its players, under the number that its pairing
was given, and rated once, by an Elo update that is exact in whole numbers: the
library proves that its table is the rounded formula. Moderators revoke matches
and correct scores over a page that only they can reach.

`src/laws.rs` states what holds across calls: all reports that carry the number
of a pairing are one match under that number, points move from one player to the
other, revoking restores what was before, the last correction decides, every
registration and rating of a player takes a sequence number of its own, and a
certificate gives a rating back even if everything stored is lost.

## The game

The player with the lower identity simulates the match; the other one shows what
it is sent, and takes over if the first one leaves. `src/client.rs` and
`src/prematch.rs` lead from the search to a match that both have accepted, and
`src/game.rs` has the rules around the simulation.

## What is trusted

Identities, addresses, signatures, digests, random bytes and JSON texts come from
outside crates, and two functions on strings (`String::push` and
`String::from_utf8_lossy`) from the standard library. Each has one declaration
whose contract is believed and whose doc comment says what it claims;
`rg 'external_body|assume_specification' src` lists them.
