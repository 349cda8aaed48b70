[package]
name = "sensor_logic"
version = "0.1.0"
edition = "2021"
publish = false

[dependencies]
half = "=2.7.1"
embassy-stm32 = { version = "=0.1.0", features = ["stm32f103c8", "time-driver-any", "unstable-pac"] }
embassy-executor = { version = "=0.5.1", features = ["arch-std", "executor-thread", "integrated-timers"] }
embassy-time = "=0.3.2"
cortex-m = "=0.7.10"
static_cell = "=2.1.1"
mpu9250 = { version = "=0.25.0", features = ["i2c"] }
