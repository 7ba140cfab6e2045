# upgrades

The rules by which a system upgrade is put together from the sync repositories, the
AUR, development packages and PKGBUILD repositories, written in Rust and verified
with Verus.

- `src/` is the library. Each function states in its contract what it returns, and
  the proof functions whose names begin with `law_` state what holds of the library
  as a whole.
  - `config`, `package`, `style`: settings, packages and colours.
  - `net`: what is asked of the network.
  - `repo`: upgrades from the sync repositories.
  - `cooldown`: AUR upgrades that are held back for a while.
  - `upgrade`: what is open to choice, and what is kept.
  - `menu`, `version`, `input`: how the choice is shown, and what the user types.
  - `text`, `seqs`: strings and sequences.
- `app/` runs the library on a live system: it queries the package databases and the
  AUR, and talks to the user.
- `tests/` runs the library on examples.

Two calls are trusted: the clock (`chrono::Utc::now`) and `char::is_alphanumeric`.
Each stands in a function of its own that says what is claimed of it.
