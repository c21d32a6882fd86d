# Genesis

A harness for agents that rewrite themselves while they run. The agent, its
tools and the chat gateways are WebAssembly components in named slots; each can
be rebuilt, tested, swapped and rolled back without stopping the rest.

`src/` is the logic of the harness and of its standard guests, verified with
Verus. It touches neither the disk nor the network nor the clock, except to read
how much time has passed: what it needs to know is handed in, and what it wants
done is handed back. `app/` carries that out.

## Where things are

- Slots and what fills them: `slot`, `loader`, `runtime`, `gateway`
- Changing what runs: `devkit`, `pipeline`, `revisions`, `watcher`, `startup`,
  `watchdog`
- Configuration: `config`, `document`, `control`
- What guests may ask of the host: `host`, `harness`, `hostfs`, `terminal`
- The agent's loop and its tools: `turn`, `tools`, `dispatch`, `memory`, `report`,
  `skills`
- Standard guests: `handlers` (the web gateway), `exa_search`, `web_contents`,
  `delete_tool`
- What the browser sees: `web`, `admin`
- Underneath: `text`, `order`, `table`, `json`, `paths`, `time`, `types`

Each module ends with the laws that hold of it as a whole, as public proof
functions.

## What is trusted

Outside crates are called through a few small functions whose contracts Verus
takes on trust: `serde_json` and `toml` for the text of documents, `sha2` and
`hex` for fingerprints, and of the standard library the clock, lower case and the
way a duration is written. Their doc comments say what is claimed of each.

## Paths

Inside the library a path has one form: names parted by `/`, from the root where
it starts with one. What a host with drives and backslashes writes is turned into
that form, and back, by `paths::from_host` and `paths::to_host`.
