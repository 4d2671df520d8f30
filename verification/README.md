# hiren

A launcher whose interface is a TOML scene. `src/` is the float-free core: it
parses, ranks, lays out and decides, and it is verified with Verus. `app/` is what
surrounds it: sockets, files, windows, fonts and floating point.

Some items of `src/` are believed rather than proved, because they stand for code
of other crates or of std:

| Item | Stands for | Its result is named by |
| --- | --- | --- |
| `calc::eval_bits` | meval | `meval_gives` |
| `search::fuzzy_score` | fuzzy-matcher | `skim_score` |
| `json::value_of`, `values_of`, `json_from` | serde_json | `json_of`, `json_list_of`, `content_of` |
| `freq::read_counts`, `write_counts` | serde_json | `counts_of`, `counts_text` |
| `text::first_grapheme` | unicode-segmentation | `grapheme_of` |
| `text::to_upper`, `to_lower` | std | `upper_of`, `lower_of` |
| `String::push` | std | |

`json::ExValue` declares `serde_json::Value`, which is opaque to the proofs.

- Evaluation and layout never compute with floating point. Where a value depends
  on it, on a font or on a file, they return a question (`ask::Out::Need`). The
  caller records the answer in `ask::Answers` and runs the step again.
- Numbers travel as decimal texts.
- `layout_laws` and `stability` hold laws that span several functions; the other
  laws stand beside the functions they speak of.

| Modules | |
| --- | --- |
| `text`, `scan`, `math`, `order`, `path` | texts, top-level splitting, rankings, paths |
| `entry`, `launcher`, `frame`, `search`, `freq`, `bridge` | entries, state, the wire format, searching, history |
| `desktop`, `modes`, `json`, `calc`, `icon` | where entries and icons come from |
| `config`, `cli`, `theme`, `color`, `css` | settings, options, themes, colors |
| `ask`, `binding`, `place`, `node`, `layout` | bindings and the scene |
| `motion`, `paint`, `ransom`, `surface`, `frontend`, `listview` | animation, drawing, lettering, pacing, input |
