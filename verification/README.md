# ksproto

Verified wire formats and protocol decisions of a small block-storage
network, written in Verus.

- `src/wire.rs`: big-endian integers and byte appending.
- `src/text.rs`: UTF-8 decoding through std, specified with vstd's UTF-8 model.
- `src/manifest/`: the manifest types; `layout.rs` gives the binary format as
  functions on byte sequences and proves that what is written reads back and
  that reading is exact; `serialization.rs` and `deserialization.rs` write and
  read it; `creator.rs` and `parser.rs` build and take apart manifests in memory.
- `src/packets/`: packet kinds and packets (payloads held in `bytes::Bytes`),
  and the framing of packets on a stream.
- `src/handshake/`: the challenge handshake, with Ed25519 from
  `ed25519-dalek` and challenges from `rand`.
- `src/node.rs`: what a node decides on a connection.
- `src/tls.rs`: the node's certificate chain and private key, parsed from PEM
  text by `rustls-pemfile`, and the ALPN protocol name.
- `app/`: the node program: configuration, key and certificate files, QUIC
  (quinn, rustls), asynchronous I/O (tokio), JSON (serde), and the client's
  command line.
