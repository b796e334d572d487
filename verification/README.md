# navd

The navigation daemon of a small robot that drives along pairs of AprilTags.

- `src/` is the verified library: what the daemon decides.
  - `state`: what the threads share.
  - `vision`: the shared-memory region of the vision process and its seqlock.
  - `nav`, `single`: which tag to head for, and when to stop.
  - `udp`: the remote control's packets.
  - `sensor`: the motor controller's answers.
  - `uart`: frames and their CRC.
  - `control`: which command goes out.
  - `recorder`, `recording`, `replayer`, `text`: recording commands and playing
    them back.
  - `playback`, `transitions`: what these promise together.
  - `clock`: timestamps.
- `app/` is the program around it: threads, the serial port, the socket, the
  mapped region and the files. The steering filter is there too, because it is
  floating-point arithmetic.
- `tests/` runs the library.
