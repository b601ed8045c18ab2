# logger

Logging with the standard syslog severity levels, verified with Verus.

- `src/severity.rs`: the severity levels, their numeric values and tags.
- `src/logger.rs`: the logger. It filters messages by level, truncates long
  messages on a UTF-8 character boundary so that a line never exceeds
  `MAXIMUM_MESSAGE_LENGTH` bytes, and composes the exact bytes of each line
  with the stream (standard error or standard output) it belongs to.
- `src/fixed_buffer.rs`: a fixed-capacity byte buffer that keeps the first
  bytes written to it.
- `app/main.rs`: the program around the library. It writes the lines to the
  streams and offers the lazily formatting logging macros.
- `tests/`: the tests.
