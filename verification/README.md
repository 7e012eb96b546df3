# Fossil

The verified core of a partition and volume server for a microkernel: it finds the partitions and
file systems of block devices, caches their blocks, starts file system drivers, lets clients mount
what the drivers serve, and passes their requests on to the devices.

- `src/` is the library, verified with Verus. Capabilities, badges and process ids are numbers in
  it. What only the kernel or a device can do comes in as a closure. The contracts say when it may be
  called and with what, and what became of its answer. A closure that is taken by value is called at
  most once; of one that is taken by reference, for loops over partitions, devices or sectors, the
  contracts do not say how often it is called. The start-up and notifications, whose order matters,
  are decided step by step, and `app/` takes the steps.
  - `fossil/` is the server: `buffer` the block cache, `reader` reads through it, `coherence` what
    such reads promise, `scan` partitions and file systems found through it, `probing` and
    `pending` the registration of devices, `proxy` requests in flight, `volume` drivers and mounts,
    `server` and `serving` the requests of clients.
  - `probe/` and `utils/` recognise partition tables and file systems; `policy/` decides what the
    cache gives up; `config` is the configuration.
  - `manager` and `server` publish the partitions of raw block devices.
- `tests/` runs the library on concrete disks and requests.
- `app/` is the program around it: capabilities, shared memory, rings, messages and `fs.json`.
