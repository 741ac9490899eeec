# whosaidwhat

Core of a local-first meeting assistant: it notices meetings, asks before
recording, turns the two audio tracks into one speaker-attributed
transcript, summarizes it through a local OpenAI-compatible server, and
links every `[mm:ss]` marker of the summary back to the transcript.

- `src/` — the library, verified with Verus: meeting detection (`detect`),
  the recording session (`capture`), transcript assembly and citations
  (`pipeline`, `diarize`, `asr`), chunking, extraction, model routing and the
  summarization plan (`llm`), store rules (`db`), configuration (`config`),
  the consent prompt (`notify`) and the detection-loop decisions (`shell`).
- `tests/` — tests of the library.
- `app/` — the daemon around it: SQLite store, HTTP client, WAV reading and
  resampling, the pipeline worker thread and the detection loop.
