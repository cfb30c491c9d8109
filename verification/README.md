# boop

A small Windows hub that lists configured apps, launches one at a time and
tells when a newer release is out.

- `src/` is the library, verified with Verus: the configuration rules and the
  lenient repair of hand-written TOML (`config`, `lenient`), path resolution
  (`paths`), release comparison (`update`), the hub's search, list, status
  line and play/stop decisions (`hub`), the book-keeping of the running app
  (`launcher`), UTF-16 text for the Windows API (`platform`) and the listing
  of embedded files (`assets`).
- `app/` is the program around it: the gpui window, file and process
  handling, the configuration watcher and the release request.
- `tests/` exercises the library on concrete values.
