# netkit

A set of small network and system tools, with their logic in a library
that Verus verifies.

- `src/` is the library, each module with its contracts and laws:
  - `lldp`: decoding of LLDP frames into their TLVs;
  - `topology`: MAC addresses, interfaces, the RARP-like frames that hosts
    exchange to find their neighbours, and the map of links with their VLANs;
  - `csvmerge`: merging of image vulnerability reports into CVE entries;
  - `forwarder`: the request and response of the command forwarder;
  - `p2p`: the addresses given to the chat node, read as multiaddrs;
  - `portmirror`: the flow key of the port mirror's filter;
  - `funcprobe`: the stack-trace events of the function probe, the lines that
    describe their frames, and symbol lookup in shared objects;
  - `echoserver`, `ccrust`, `ip`, `text`: small pieces and shared helpers.
- `tests/` runs the library on concrete values.
- `app/` holds the programs' I/O: sockets, files, processes and command
  lines, around the library.
