# companion

The verified core of Companion, a desktop and terminal AI companion with
push-to-talk voice input, written in Verus.

- `src/` — the library, every function with a contract proved by Verus:
  hotkey parsing and the push-to-talk listener (`hotkey`), the sidecar's
  streaming protocol, the chunked reading of its stream and its client rules
  (`agent`, `stream`, `sidecar`), the chat view
  with byte-width word wrapping (`chat`), the input line with its
  character-boundary cursor (`input`), the terminal client's reactions to
  keys, voice events and reply signals (`session`), the voice pipeline's
  decisions (`voice`, `global_voice`), configuration defaults and paths
  (`config`), speech engines' shared rules (`asr`, `tts`, `audio`,
  `encoding`), model archives and model lists (`downloader`, `models`),
  the desktop shell's system rules and tray menu (`system`, `tray`) and the
  command line (`cli`).
  `text` and `bytes` hold the character- and byte-level string helpers.
- `tests/` — tests of the library.
- `app/` — the terminal client program: terminal drawing, the sidecar
  process and HTTP, microphone capture, the global keyboard hook, the
  cloud speech engines, configuration files on disk, and the fetching side
  of the desktop shell's history and model-list commands.
