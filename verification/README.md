# poe_wayfinder_app

The verified core of an overlay that prices Path of Exile items, written
in Verus. The functions in `src/` carry contracts that Verus proves; the
few calls into std and serde_json that Verus cannot read stand behind small
wrappers whose contracts say what those document.

- `game_log`, `session`, `log_watch`: reading the game's `Client.txt` and
  what it says about the league, the character and the area.
- `http_policy`: which URLs the app may request.
- `datagen`, `data_refresh`, `keyed`, `ndjson`: rebuilding the data tables
  from the trade site's answers, writing them as lines of JSON, and when to
  do it.
- `stat_index`, `item_index`, `price_check`: finding a stat by its
  matcher's text and a base item by its name within a namespace, and
  reading the trade site's answer to a search.
- `status`, `frame_watch`, `widgets`, `game_window`, `gamepad`: what the
  overlay shows and when it draws, and which panel tabs are on.
- `clipboard`, `copy`: copying the item under the cursor. What the clipboard
  and the game answer is theirs; what is proved is what polling does after
  each look (`poll_step`), that polling is a run of such steps, one look
  after each pause, and what a copy answers, and puts back, for each outcome
  of polling.
- `clock`: the monotonic clock that paces trade requests, counting from
  when it was made.
- `startup`, `settings`: which key does which job, and what is remembered
  between runs and when it must be written back.
- `arch`, `trader_arch`, `scan`, `report`, `outline`, `capability`,
  `catalogue`, `standing`: the source scanners that keep the layering honest and measure
  what the sources show.
- `text`, `order`, `paths`: strings, their order, and path joins.

`app/main.rs` is the command line around it: it walks source trees, reads
files, asks the trade site for its tables (`refresh` takes `--no-network`
and `--allow-unlisted` for the two switches of the network policy) and
prints what the library decides. `tests/` holds the tests, run against the compiled library.
