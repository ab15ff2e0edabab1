# IPTV manager

Keeps a list of IPTV subscriptions (plain M3U addresses, Xtream servers and MAG
portals), downloads their playlists and plays them with mpv, which it installs
when needed.

- `src/` is the library: the state of the manager, the rules by which it changes,
  the jobs in the background as state machines, the search for a file, the choice
  of a release. It is verified with Verus. What it takes from outside is not
  proved but believed, as the contract above each item says:
  - of the standard library `String::push`, `char::is_alphanumeric` and
    `str::to_lowercase` (in `text`);
  - of chrono `day_text` and `now` (in `clock`), of uuid `new_id` (in `ident`), of
    reqwest `status_text` (in `http`);
  - of serde_json `parse_json`, `json_member`, `json_items` and `json_text` (in
    `release`).
- `app/` is the program around it: the window, the network, the disk.
- `tests/` runs the library.

| module         | what it holds                                             |
|----------------|-----------------------------------------------------------|
| `manager`      | the manager: list, selection, forms, job, status          |
| `jobs`         | the jobs in the background, step by step                  |
| `search`       | the search for a file through directories                 |
| `release`      | releases of the player and which file of them to take     |
| `player`       | the files and versions of the player                      |
| `subscription` | subscriptions, their labels, file names and addresses     |
| `clock`        | moments and calendar days                                 |
| `ident`        | identifiers                                               |
| `http`         | status codes                                              |
| `text`         | texts as sequences of characters                          |
