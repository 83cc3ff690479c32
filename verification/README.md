# ftdecode

A receiver for FT8 and FT4, with its decisions proved in Verus.

- `src/` is the verified library. It packs and unpacks the 77-bit messages with
  their callsign hashes, encodes and checks the (174, 91) code, searches by order
  statistics, plans the search of a window and the hypotheses of assisted decoding,
  assembles windows out of a sample stream under a framed protocol, reads WAV files,
  and renders results.
- `tests/` runs the library on concrete values.
- `app/` is the program around it: files, TCP on the loopback, standard streams,
  threads, JSON, and the floating point signal processing.

Numbers that come out of signal processing reach the library as the bit patterns of
their single precision values. The library compares them, and rounded differences of
them, exactly.

What the library has proved as general laws stands in public proof functions next to
the functions they speak of, and in `code_laws`, `parity_law`, `message_laws`,
`round_trip`, `contest_round_trip`, `text_round_trip` and `stream_laws`.
