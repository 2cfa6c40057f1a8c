# easy_download

A multi-block HTTP downloader. A file of `size` bytes is split into
`thread` byte ranges; each range is fetched with a `Range` header into its
own part file, retried with growing delays when a request fails, and the
part files are joined in order once every block is complete.

- `src/` is the verified library (Verus): request headers and the client
  they are sent with, the decimal text of ranges and lengths, the block
  split, the per-block decisions (which range to ask for, bytes held, retry
  or give up), part-file names and the joining of parts.
- `app/` is the I/O around it: sending requests, writing part files,
  progress channels, the `sled` store of a task's state, and an example
  that downloads one file.
- `tests/` runs the library on concrete values.
