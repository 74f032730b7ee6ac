# emulator_core

An emulator of the ESP32-C3 for one device: a core that runs RV32IMC machine
code, the memory map of the chip, and the devices that the firmware talks to
(system timer, interrupt matrix, GPIO with a 74HC165 shift register of
buttons, SPI with an ST7789 display). It boots an ESP-IDF app image and stands
in for the functions of the mask ROM.

Every function of the library is verified with [Verus](https://github.com/verus-lang/verus).
Each device, the bus and the core have a mathematical state, and each
operation is proved to take one state to the next. What follows from these is
proved beside them, in functions named `law_...`.

| Where | What |
| --- | --- |
| `src/bits.rs` | words, bytes and bits as arithmetic |
| `src/cpu/` | registers, decoder, execution, traps, ROM stubs |
| `src/cpu/encode.rs` | how instructions are encoded, and that decoding undoes it |
| `src/mem/` | the `Bus` trait, the memory map, app images, the bus of the chip |
| `src/peripherals/` | the devices |
| `src/rom.rs` | the functions of the mask ROM that have a stub |
| `src/boot.rs`, `src/runtime.rs` | booting an image and running it |
| `src/laws.rs` | what holds of a booted machine as a whole |
| `app/` | the same for JavaScript, by way of `wasm-bindgen` |
