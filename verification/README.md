# majestic

`majestic` packs conversation exports (Grok, ChatGPT, Telegram, Facebook and
Instagram, X, Markdown trees, session logs) into searchable archive files, and
searches them. `memex` is the program around the library.

- `src/` is the library, verified with Verus: the layout of an archive, the merge
  of conversations, the word index, the query language, search reports, the
  walks that look for exports and archives, the inference of archive names,
  JSON-RPC dispatch, and the readers of each export format. What comes from
  another crate or from the standard library is not verified: 23 small functions
  marked `external_body` make such calls, and Verus takes their contracts, and
  those of eight `assume_specification` items, on trust. The doc comment at each
  names the outside function and says what is claimed of it.
- `app/` is the `memex` program: flags, files, mapped memory, threads, HTTP,
  and the serde and rkyv encodings of the library's records.
- `tests/` runs the library on concrete values.

An archive holds a header, an encoded payload, the searchable text, a table of
spans, a word index, and a hash tree over the encoded conversations and the
uploaded files. Ingest never deletes a source. Adding an export again adds its
entry to the list of exports and to the provenance of what it holds, and no
conversation and no file twice.
