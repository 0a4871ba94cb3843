# clipforge

Game clipping on top of OBS: a supervisor keeps OBS running and connected,
arms the replay buffer only while a game runs, names clips after the game,
and manages a clip library (favorites, backups, storage cap, exports).

- `src/` is the library, written in Verus: every function carries a
  contract and is verified. The modules follow the app's concerns
  (`supervisor`, `obs`, `setup`, `clips`, `backup`, `render`, `autoclip`,
  `hotkeys`, `fullscreen`, `health`, `watcher`), with `text`, `paths` and
  `sorting` as shared helpers. Calls into other crates (`regex`,
  `serde_json`, `trash`, parts of `std`) go through a few trusted wrappers
  whose contracts say what the library relies on.
- `tests/` exercises the library on concrete values.
- `app/` is the desktop shell (Tauri commands, the OBS websocket client,
  file and process I/O, Windows APIs). It holds no decisions of its own:
  each loop asks the library what to do and performs it.
