# rebpf

Per-process network traffic redirection. A daemon keeps a list of matches
(programs, addresses, domain names), compiles the program matches into an
automaton that an eBPF program walks, and sets up routes and rules so that the
traffic which is caught leaves through a chosen device. A window shows and edits
what the daemon keeps.

- `src/` is the verified library: the state and its requests, the compiler of
  matches, the messages that are exchanged with the kernel, DNS records and their
  expiry, and the state and the contents of the window (`src/gui/`).
- `app/` is the program around it: command line, files, sockets, the bus, the
  drawing of the window. Called as `rebpf-gui` it is the window, else the daemon.
- `tests/` runs the library on concrete values.
