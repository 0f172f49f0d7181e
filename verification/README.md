# hsl-telepresence-robot

The agent of a telepresence robot driven from a web browser: a Raspberry Pi
with a PCA9685 motor HAT and a stereo USB camera, talking to operator consoles
over a CLASP relay.

## Layout

- `src/` is the verified library. Every function in it is verified. Those
  that compute from their arguments carry a contract that fixes their
  result; those that read a clock (`Arbiter::claim`, `release`, `accepts`,
  `expire`, `Tokens::fresh`) fix it for whatever the clock read, and
  `Arbiter::now_ms`, the bare reading, has no contract. The promises the
  agent makes as a whole are stated and proved there as `law_*` proof
  functions.
  - `protocol`: the relay address contract and the wire messages.
  - `broadcast`: chunk framing of the video broadcast, with the round trip
    through `parse` proved.
  - `control`: the driving lease (who may drive, when a lease lapses, what
    is published).
  - `link`: routing of inbound commands and signaling.
  - `health`: run-stamped probe tokens and the consecutive-failure count that
    declares the relay link dead.
  - `motion`: the e-stop and watchdog state machine, and the PCA9685 pin
    sequencing.
  - `video`: who is watching (every viewer watches the one published
    stream), when the capture pipeline is built or rebuilt, and the pipeline
    description; `roster` keeps the sorted viewer lists.
  - `config`, `text`: parsing of settings and character helpers.
- `app/` is the program around it: relay I/O, tokio tasks, I2C, GStreamer,
  environment variables and everything floating point (wheel mixing, PWM
  duty). It feeds events to the library's state machines and carries out the
  actions they answer.
- `tests/` runs the library on concrete values.
