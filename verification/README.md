# Call Recorder

A desktop recorder for the calls of a sales team, in Danish: it records the microphone and the
system's sound, transcribes both with speaker labels, takes dictation while a key is held, and has an
assistant, Anna, that answers spoken questions about what is on the screen.

The logic is a library verified with [Verus](https://github.com/verus-lang/verus). Every function in
`src/` has a contract that Verus proves; what the library takes from outside crates and from the
standard library stands behind small declarations whose contracts say what is relied on.

## Layout

```
src/                     The verified library
  anna.rs                The assistant: requests, answers, retries
  audio/mixer.rs         The WAV files of a recording
  dictation.rs           Dictation: the Fn key, routing, commands
  dictation_windows.rs   Dictation on Windows
  google_auth.rs         Sign-in with Google: addresses, callback, tokens
  logging.rs             The log, and its shipment to a collector
  number.rs              Decimal numbers
  paths.rs               Places in the file system
  recording.rs           The course of a recording
  settings.rs            The settings
  state.rs               What the application remembers
  text.rs                Text: case, trimming, searching, splitting, words
  text_insert.rs         Insertion of text through the clipboard
  transcription/         Cleaning, segments, live turns, uploads, the speech model
  tray.rs                The icon and the menu
tests/                   Tests of the library
app/                     The application around it: windows, devices, network, files
```

Proof functions whose names start with `law_` state what holds of the library as a whole: for
instance that a WAV file is as long as its samples say, that the shipper of the log loses no entry,
that two turns of a live transcription leave no gap and repeat nothing, and that a cleaned dictation
ends as a sentence.

## Humio logging

Log entries can be sent to Humio / Falcon LogScale. Set these when building the application:

```
HUMIO_INGEST_URL=https://<your-host>/api/v1/ingest/humio-structured
HUMIO_INGEST_TOKEN=<ingest-token>
HUMIO_ENV=dev
```

Entries always carry the tags `system=anna` and `environment`, which is `dev` where none is named.
Without an address and a token only the log in memory is kept.
