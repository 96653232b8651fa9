# qomicex_core

The core of a Minecraft launcher: mod loader installers (Forge, NeoForge, Cleanroom,
Fabric, Quilt, Legacy Fabric, Babric, LiteLoader, OptiFine), modpack installers
(Modrinth, FTB), the loader version lists, download mirrors and retries, sign-in
(offline, Yggdrasil, Microsoft) and the CurseForge, Modrinth and FTB catalogues.

- `src/` is the library, written in Verus: every function carries a contract that
  Verus proves. Calls into `regex`, `sha1`, `md-5`, `chrono`, `uuid`, `reqwest`'s URL
  type and `serde_json` stand behind small trusted wrappers whose contracts are stated
  in their doc comments. The public proof functions state the library's laws.
- `tests/` runs the library on concrete values.
- `app/` is ordinary Rust around the library: HTTP requests, files, archives,
  processes and the asynchronous installer interface. It hands the library plain
  values and acts on what the library decides.
