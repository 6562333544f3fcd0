# YDM

A download manager: a queue with a limit on how many downloads run at once,
files fetched in segments or in one stream, yt-dlp for video platforms, and an
HTTP interface for a browser extension.

`src/` is the library. Verus proves its functions against their contracts, but
for the few that call into other crates or the standard library: their contracts
are believed. They stand in `platform` and `text`.

| module | what it holds |
|---|---|
| `text`, `number`, `filename`, `paths` | texts, numbers, names of files |
| `types` | downloads, their status, settings, messages |
| `queue`, `queue_laws` | the queue, and what holds of it in every state |
| `downloader`, `transfer` | probing, segments, and the steps of a transfer |
| `ytdlp` | the arguments and the output of yt-dlp |
| `api` | requests and answers of the HTTP interface |
| `config`, `browser` | what is kept on disk and in the registry |
| `screen`, `icon` | what the window shows |
| `platform` | calls into other crates |

`app/` is the program around it: the window, the network, the disk. The library
tells it what to do next, and the program tells the library what came of it.
`tests/` runs the library on concrete values.
