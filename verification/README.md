# sensor_logic

Verified logic of an STM32 sensor module that reports over a CAN bus.

- `src/sensor_config.rs`: which setup steps a sensor asked for, byte sums,
  the test-value runner.
- `src/can_bus.rs`: cutting a message into standard CAN data frames, and the
  reaction to a frame in the inbox (reset command or delivery).
- `src/registration.rs`: the join handshake: seed from two ADC readings,
  staggered start, zero-padded decimal announcement, echo detection,
  identifier assignment, and the `ID:<name>,TYPE:<kind>` configuration
  message.
- `src/readings.rs`: layouts of the motion-sensor report, the GNSS stream
  reads, and the thermocouple converter word.
- `app/`: the firmware programs (embassy drivers, timers, resets, float
  conversions) around the library.
