# monarch

The rules by which the parts of a mesh of processes find each other, come up,
are watched over and are torn down, with RDMA between them. The library decides;
what has to be asked of the system, the network or another process is asked by
its caller, who hands the answer back.

- `src/channel`: addresses of channels, how they are read and written, served
  and connected to, and the certificates and keys of PEM files.
- `src/rdma`: the RDMA devices of a machine and which of them is closest to a
  GPU or a CPU, protection domains, memory regions and queue pairs.
- `src/mesh`: how processes come up, the life of a proc, the agents of procs and
  of hosts, regions of ranks, meshes of hosts, and starting, stopping and asking
  about meshes of procs.
- `src/text.rs`, `src/numerals.rs`, `src/name_map.rs`: texts, numbers and maps.
- `app`: sysfs, sockets and TLS, the environment, processes, and JSON.
- `tests`: what the library does on given values.

Work that alternates between decisions and the outside is a row of stages: a
function gives the first stage, another takes a stage and what came of it and
gives the next, and a specification says which stage follows which.
