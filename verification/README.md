# ytune

The decision logic of the YTune desktop client (a YouTube Music window with
Discord Rich Presence and a tray popup), verified with Verus.

- `src/` — the verified library:
  - `text` — character-level helpers (trimming, splitting, searching) over `Seq<char>`;
  - `decimal` — integer parsing and formatting as `str::parse` and `{}` do them;
  - `deep_link` — `ytune://` sign-in and open-page links, percent decoding;
  - `discord` — artist-line cleaning, when the presence is resent, what it shows,
    and the connection loop;
  - `scripts` — the JavaScript calls made into the page, with escaping;
  - `prefs` — the flag files and the saved popup position;
  - `auth` — the sign-in token and its restoration;
  - `payload` — reading the JSON payloads of the page's events;
  - `monitor` — choosing the monitor for a point;
  - `window` — tray menu, window closing and popup toggling.
- `tests/` — tests of the library on concrete values.
- `app/` — the Tauri application around the library: windows, tray, events,
  files, the Discord client and the injected page script.
