# backup

Coordination of key-value backups, verified with Verus.

A backup task names a range of keys. The library splits it over the regions that a
store leads, hands the ranges out to workers, takes each worker through the backup of
its ranges, and reports what came of them. It also sums the checksums of table rows.

The library makes decisions only. It asks for actions (take a snapshot, read an entry,
write a batch, save the files) and is told what came of them; engines, storage
backends, threads, channels and clocks are on the caller's side.

- `src/`: the library. `keys`, `region` and `range` hold the data; `progress` and
  `coverage` split a task; `file_backup` and `worker` run it; `task`, `response`,
  `pool` and `endpoint` surround it; `checksum` sums rows. The modules whose names end
  in `_laws`, and `coverage`, state what holds of several calls together.
- `app/`: the threads, channels and traits that connect the library to a server.
- `tests/`: tests of the library.

Trusted without proof are three calls: the CRC-64 digest of `crc` and the two
hexadecimal encoders of `hex`.
