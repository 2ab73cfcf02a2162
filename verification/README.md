# Codex Quota

Quota tracking for a local Codex installation: what is left of the five-hour and the weekly
window, when they reset, and where that is known from. The app server is asked first; session
files and the cache stand in where it does not answer.

`src/` is the verified library.

- `quota`: rate-limit windows, snapshots, and which source gives way to which
- `app_server`: the conversation with the app server and the search for its executable
- `session`: session files, newest first
- `service`: what is shown, when it is refreshed, and the text of the tray icon
- `storage`: settings, the cache, and replacing a file without losing its contents
- `window`: translucency and what the controls of the window ask for
- `paths`, `clock`: the user's directories and the wall clock
- `json`, `text`, `binary64`: documents, texts and double-precision numbers, which the library
  holds as bit patterns

`app/` is the desktop application: processes, files, threads and the user interface.
