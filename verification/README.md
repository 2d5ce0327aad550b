# nuupa

The core of Nuupa, a desktop app for the global packages of npm, pnpm and
bun and for the agent skills of the user's folder, as a library verified
with Verus.

## Layout

- `src/` — the verified library.
  - `kernel.rs`: the domain types, the `Runner` seam through which a
    manager's process enters, the package list every manager builds, the
    failed-JSON-command guard, package-name validation, installation,
    versions and discovery messages.
  - `npm.rs`, `pnpm.rs`, `bun.rs`: each manager's outputs and its photo of
    the global space (bun's tree and human table included).
  - `gestores.rs`: the table of managers and the cores the commands run.
  - `cola.rs`: "update all" as a state machine, with its accounting.
  - `exclusiones.rs`: the per-manager exclusions, their document and what a
    corrupt file blocks.
  - `habilidades.rs`: skill validation (`SKILL.md` front matter), safe
    names, the listing's rows and the manifest's states.
  - `json.rs`, `texto.rs`, `orden.rs`: JSON documents as plain values, text
    helpers with their specifications, and the stable sort by name.
- `tests/` — the tests, run against the library.
- `app/` — the application around it: processes under a deadline, where
  each manager lives, the files, the wire types and the command layer.
