# RF-Limiter, verified core

A lookahead true-peak limiter whose sample-free logic is proved with Verus.

* `src/` is the verified library: the parameter contract and its ranges, the
  settings and the factory presets, the saved-state layout, the delay ring,
  the eight-tap history, the sliding-window minimum, the ring under the box
  ramp, the latency, and the bench's option grammar. Single-precision values
  are held as their IEEE-754 words and ordered as the numbers they encode.
* `app/` is the bench program and the floating-point engine around the
  library: the true-peak detector, the release envelopes, the ramp's running
  sum, the meters and the WAV input and output.
* `tests/` exercises the library from outside.
