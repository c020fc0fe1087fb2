# mikanplus

The core of MikanPlus, a desktop client for the Mikan Project anime site,
written in Verus: the library's rules (parsing, access policy, caching,
storage, download bookkeeping, navigation and what the pages list) are
executable functions with contracts that Verus proves. The calls into outside
crates (HTML parsing, hashing, magnet links) stand behind trusted items whose
contracts are stated, not proved. The file, network and BitTorrent I/O lives
in `app/`, unverified; the window layer is not part of this crate.

## Layout

- `src/` — the verified library
  - `model` — bangumi, weekly groups, subtitle groups, episodes,
    subscriptions, search results, and their views
  - `text` — characters, trimming, lines, decimal numbers
  - `network` — the site access policy (throttle, backoff, slots), image
    download bookkeeping, site and search addresses, system proxy settings
  - `html`, `parser` — reading the list, detail and search pages
  - `cache` — cache keys, freshness, eviction of the image cache
  - `paths` — file names, download folders, URLs for the system opener, the
    videos folder
  - `state` — the state file: fields, filter keywords
  - `library` — loaded pages, lookups, subscriptions, unsubscribing, keywords
  - `download` — magnet links, task states, pending downloads, folder
    clean-up, trackers
  - `navigation`, `display`, `error` — pages, history, page texts, errors
  - `listing` — the keyword filter of a group page, the paging of search
    results, the control of an episode row
- `tests/` — tests of the library on concrete values
- `app/` — the program around it: HTTP, files, the BitTorrent engine, the
  serializable copies of the model

Laws of the library are public proof functions named `law_*`.
