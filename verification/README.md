# yscloud

The verified core of a small cloud appliance and its tools: an init that
plans the boot from the kernel command line, a network manager that reads
IPv6 router advertisements and netlink messages, an SNI-routing TLS proxy
with its management protocol, a torrent-backed web server with a virtual
file system and an ARC cache, and a blog that serves files from a tree in
memory or a zip archive.

- `src/` is the library, written in Verus, and Verus proves each of its
  functions against its contract. Where a result rests on chance or the
  clock, as a fresh session id does, the contract states only what holds of
  every outcome, which can be nothing. Calls into outside crates sit behind
  small trusted wrappers whose contracts are stated in their doc comments.
- `tests/` runs the library on concrete inputs.
- `app/` is plain Rust around the library: files, sockets and the other
  operating-system work that the library hands plain values to and from.
