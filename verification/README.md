# coconut

The verified core of the Coconut desktop shell and its settings
application, written in Verus.

- `src/` is the library. Each module states what its functions compute in
  `requires`/`ensures` contracts over mathematical models, and Verus proves
  them:
  - `dock`: dock placement, section layout, island render order, the
    settings' island and section edits, and which islands show;
  - `launcher`, `user_dirs`, `accounts`, `icon_theme`, `wm_config`: the file
    formats the shell reads (`.desktop` launchers and `Exec=` lines,
    `user-dirs.dirs`, `/etc/passwd`, `index.theme`) and the window-manager
    settings it reads and writes by key path;
  - `geo`, `nav`, `shortcuts`, `fields`, `gap`, `order`, `text`, `paths`:
    searching, labelling, parsing and ordering text;
  - `wallpaper`, `runtime`, `debounce`, `config`, `api`, `state`: wallpaper
    history and gallery previews, reactions to live configuration updates,
    coalescing of update bursts, configuration defaults and the integration
    interfaces.

  Calls into `std`, `toml` and `image` sit behind small trusted functions
  whose contracts are believed, not proved; each one's doc comment says what
  it claims. Two parts of `api` and `state` have no functional contract at
  all: the `SharedState` bag (`insert`, `get`, `get_or_insert_with`, and
  that clones share one bag) and `ChangeListener` (`new`, `wait`). Their
  values live behind a shared, interior-mutable cell or another thread, which
  these contracts cannot speak about, so Verus checks only that they are
  called safely.
- `tests/` exercises the library on concrete values.
- `app/` holds the input/output around the library: reading and writing
  the configuration files, scanning folders, D-Bus, threads, and the values
  the library does not hold (floating-point sizes).
