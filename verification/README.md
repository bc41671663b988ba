# whisper_proxy

PotPlayer turns the sound of a film into subtitles with a Whisper engine that it starts
as a process of its own. This project stands in for that engine: it takes the player's
requests, sends the sound to an OpenAI-compatible Whisper server, and answers as the
engine would. It can also be called like whisper.cpp's `main(64).exe` on sound files, and
it comes with an installer.

`src/` is the library, verified with Verus:

| module | what it is about |
|---|---|
| `text`, `number`, `bytes` | characters, digits, little-endian integers |
| `frame`, `ipc`, `answer`, `desk` | the player's pipe: frames, the session and its seek epoch, answers and their order |
| `wav` | the file that a chunk of sound is sent as |
| `config` | defaults, `whisper-proxy.ini`, environment |
| `multipart`, `whisper_client`, `json` | the request to the server and its reply |
| `args`, `batch`, `output` | whisper.cpp's command line, file mode, TXT/SRT/VTT/JSON/LRC/CSV |
| `launch` | which mode runs, where logs go |
| `installer` | command line, engines, backups, ini file |

`app/` is the program around it: files, pipe, HTTP, threads, registry, and the floating
point of the times. `tests/` runs the library.

What is believed and not proved stands in three places: `json` (calls of `serde_json`),
`bytes::read_lossy` (`String::from_utf8_lossy`) and `text` (`String::push`). Each says in
its comment what it claims.
