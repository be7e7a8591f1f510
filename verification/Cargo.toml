[package]
name = "mpvqc_checklist"
version = "0.1.0"
edition = "2021"
publish = false

[dependencies]
anyhow = "=1.0.104"
aspasia = "=0.2.1"
clap = { version = "=4.6.7", features = ["derive", "env"] }
clearscreen = "=5.0.0"
colored = "=3.1.1"
crossterm = "=0.29.0"
dotenv = "=0.15.0"
edit = "=0.1.5"
hhmmss = "=0.1.0"
inquire = "=0.9.4"
octocrab = "=0.47.1"
termimad = "=0.35.5"
tokio = { version = "=1.54.1", features = ["macros", "rt-multi-thread"] }
