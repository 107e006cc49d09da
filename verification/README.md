# ping6_data

Data transfer over ICMPv6 echo requests (`datasend`, `datarecv`) and a
neighbor discovery proxy (`rsndpproxy`), with their logic verified by Verus.

- `src/` is the verified library: the buffers and range bookkeeping of the
  stream protocol, its packet formats and checksums, the sending and
  receiving state, the datagram format, neighbor solicitation parsing, the
  advertisements that answer them and the proxy's decisions.  Run
  `verus` on `src/lib.rs` to check it.
- `app/` holds the programs around it: command lines, sockets, standard
  input and output, the configuration file, daemonizing, privileges and
  signals.  `app/main.rs` picks the program by its first argument.
- `tests/` exercises the library on concrete values.
