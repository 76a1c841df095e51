# rusty-tuber

The core of a headless PNG-tuber, written in Verus: a layered avatar that
follows a microphone, blinks, shows emotions and is written to a virtual
webcam.

- `src/` is the verified library. Every function there has a contract that
  Verus proves; the laws of the library stand beside the functions they speak
  of, as public proof functions.
- `app/` is the program around it: the command line, files, the audio stream,
  the video device, the tasks, and a control server for those who want one.
- `tests/` runs the library on concrete values.

The library calls three outside crates: `image` to decode, scale and stack
pictures, `wide` to pack eight pixels at a time, and `mime_guess` for media
types. Each call stands behind a small function whose contract is believed, not
proved, and whose doc comment says what is claimed.

Numbers that are `f32` elsewhere are held by their bits (`binary32`): the library
compares and clamps them, and leaves arithmetic on them to the program.

Building the program needs the ALSA development headers; running it needs a
configuration file and an asset root:

```
rusty-tuber --config config.toml
rusty-tuber list-audio-devices
```
