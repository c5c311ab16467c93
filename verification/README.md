# rust_disk_cache

An encrypted disk cache with least-frequently-used eviction, verified with Verus.

- `src/` is the verified library: the cache map (`cache`), AES-256-GCM sealing of
  values (`crypto`), gzip and SHA-256 codecs (`codec`), checksummed stored entries
  (`stored_entry`), prefetching (`prefetch`, `simple_cache`, `optimizer`), service
  command planning (`service`), the systemd unit file (`unit_file`) and settings
  (`config`). Calls into aes-gcm, base64, rand, flate2, sha2, hex and chrono sit
  behind small trusted wrappers whose contracts are stated next to them.
- `app/` is the program around it: files, the command line, processes, logging,
  JSON and bincode encoding, and system metrics.
- `tests/` runs the library on concrete values.
