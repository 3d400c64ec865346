# borink-object-storage-proto

Azure Blob Storage requests and responses for callers that own their memory
and their I/O. The library writes a request head into buffers the caller
hands it, and reads the response head and body the caller hands back. It
never opens a socket and never reads the clock. It uses the heap only for
short-lived working storage of a few encoders and readers; the crate
documentation names them.

The library is written in Verus, and each public function states what it
does in its contract.

## Layout

- `src/` is the library.
  - `azure.rs`: the `Blobs` client, which encodes each operation and reads
    its answer, and Azure's own block operations.
  - `types.rs`, `outcome.rs`, `error.rs`: plans, outcomes and errors.
  - `request.rs`, `http.rs`, `path.rs`, `head.rs`, `time.rs`: the request
    head writer, URL encoding, the response head, and HTTP dates.
  - `layered.rs`: the exact buffer sizes each operation needs, block ids,
    entity tags and dates.
  - `checksum.rs`, `block_options.rs`: transactional checksums and the
    options of block operations.
  - `xml/`: the readers of the documents the service sends: listing pages
    (`listing.rs`, with the values of chosen blob properties), block lists
    (`blocks.rs`) and error bodies (`mod.rs`), over a byte scanner
    (`scan.rs`) and an in-place decoder of XML references (`decode.rs`);
    `tokens.rs` reads an error code with the `xmlparser` tokenizer.
- `tests/` runs the library on concrete requests and responses.
- `app/` is a synchronous host over `ureq` that sends the requests and hands
  the responses back to the library.

The laws the library keeps across calls are public proof functions named
`law_*`, each beside the functions it speaks of.
