# lokey

The logic of a firmware framework for keyboards and other input devices, verified with Verus.

- `src/` is the verified library: the layer stack with conditional layers, key actions and the
  layout, key overrides, the keyboard and mouse reports, key scanning and debouncing, the
  publish-subscribe and single-receiver channel states, status LED actions and their hooks, the
  BLE profiles, bonds and connection events, the combined USB/BLE transport switch, the USB device
  state, storage entries and errors, switches, MIDI cable numbers and the microcontroller
  configurations. Every function states what it does in its `requires`/`ensures`, and the laws
  that tie several functions together are public proof functions named `law_*`.
- `tests/` runs the library on concrete values.
- `app/` holds what stays outside the verifier: the scanning loops with their timers, the
  `bitcode` encoding of status LED messages, mouse buttons as an `enumset` set, the errors of the
  flash storage driver, and the floating-point LED brightness.
