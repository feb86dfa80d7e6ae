[package]
name = "uulp"
version = "0.1.0"
edition = "2021"
publish = false

[dependencies]
regex = "1"
ansi_term = "0.12"
chrono = "0.4"
libc = "0.2"
nix = "0.26"
termios = "0.3"
users = "0.11"
ncurses = "5"
