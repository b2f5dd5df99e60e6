# sw_video_lua

The logic of a Stormworks mod manager, of its OpenAL proxy DLL and of its video
capture plugin, written in Verus with its behaviour stated in contracts.

- `src/` is the verified library:
  - `shared` — plugin manifests, the manager configuration and plugin validation;
  - `pe` — PE32+ header parsing, virtual-address translation and signature byte checks;
  - `pixels`, `preview` — frame statistics, nearest-neighbour resizing, BMP previews;
  - `proxy` — the proxy's file layout, retry limit, module-name buffer growth and the
    stages of loading the plugin;
  - `runtime_debug`, `memory`, `hook`, `time_utils` — decisions and renderings behind the
    plugin's debug output, memory reads and hook error handling;
  - `text`, `paths`, `digest` — the formatting, parsing and path helpers they share;
  - `laws` — properties that relate these functions, proved over their specifications.
- `app/` is the unverified shell: file and memory I/O, the Windows loader, JSON
  (de)serialisation and the exported OpenAL forwarders. It asks the library for every
  decision.
- `tests/` runs the library on concrete values.
