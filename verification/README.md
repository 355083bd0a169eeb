# artifact_cache

A verified core for a shared cache of compiler artifacts. The library decides
which compiler invocations can be cached and under which key, which entries can
be trusted, and how entries are published, restored, pruned and recorded in
snapshot manifests. The public functions in `src/` carry contracts that Verus
proves; the laws that relate them are the `law_` proof functions. The contracts
of the few items that call other crates, or parts of the standard library that
Verus does not know, are believed: each says in its comment what it claims.

- `src/` holds the library. It works on plain values: paths are byte strings,
  and what stands on disk is a value that was read beforehand. Work that
  alternates with reading or writing files is a state machine which is told
  what happened and says what comes next.
- `app/` reads and writes files, runs processes, serves locks over a socket and
  drives these machines. The graph of units, the record of what is fresh and the
  drawing of notes are left to the build that embeds it.
- `tests/` runs the library on concrete values.

| Modules | Subject |
| --- | --- |
| `bytes`, `text`, `digest`, `unix_path`, `path_laws`, `ordering`, `disk` | plain values |
| `command`, `arguments`, `base_arguments`, `dependency_arguments`, `link_arguments`, `remap`, `invocation` | compiler invocations |
| `admission`, `admission_laws`, `loader_inputs`, `loader_digest`, `loader_laws`, `action`, `action_inputs`, `action_tree`, `archive`, `cache_key`, `key_laws` | which invocations are cached, and their keys |
| `compiler_identity`, `installation`, `identity_laws`, `rustc_info` | the compiler |
| `source_inputs`, `entry`, `staging`, `publication`, `restoration`, `locking`, `cache_size`, `pruning` | cache entries |
| `snapshot_paths`, `snapshot`, `recorder`, `snapshot_restore`, `snapshot_laws`, `outputs` | snapshot manifests |
| `unit`, `preflight`, `reach`, `schedule`, `job`, `rustc_job`, `rustdoc_job`, `messages`, `manifest_spans`, `stats` | jobs of a build |
| `rmeta_link`, `work_product`, `sld`, `macho_aarch64`, `lock_server` | linking and locks |
