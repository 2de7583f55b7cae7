# lib

Verified core of a small reliable-blast UDP file transfer: numbered
fixed-size packets over UDP, with per-window reports of packet numbers over
a TCP control channel.

- `src/packet.rs`: the packet layout (little-endian `u32` number, then a
  508-byte payload), packing and unpacking, and their round-trip laws.
- `src/window.rs`: reading a window report, marking the reported packets
  that did not arrive, and building the reports sent on the control channel.
- `src/control.rs`: the file name announced at the start and the stop signal.
- `src/sender.rs`: the windowed and the streaming sender, as state machines
  fed one file chunk at a time.
- `src/receiver.rs`: the windowed receiver, fed one packet or report at a time.
- `app/`: sockets, files, threads and the command-line entry point.
