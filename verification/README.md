# streamkit

Building blocks of a streaming engine, verified with Verus.

- `hash_map`: hash keys of rows, of a fixed size or not, over the columns of `array`, whose entries
  are the scalars of `types` and `decimal`. `hash_key_laws` shows that keys are equal exactly when
  the rows are.
- `stream_chunk` and `sink`: batches of changes, and the executor that writes them to a sink in one
  transaction for each checkpoint. `sink_laws` follows it over whole streams.
- `concat`: an iterator over many tables, one after the other. `concat_laws` shows that it meets
  every key in order, and that a seek ends where it should.

The executor and the iterator decide, and ask for what is to be done; `app/` does it against sinks
and stores, and tells them how it went.
