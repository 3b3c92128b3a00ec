[package]
name = "uniseal"
version = "0.1.0"
edition = "2021"
publish = false

[dependencies]
argon2 = "=0.6.0"
chacha20poly1305 = "=0.11.0"
clap = { version = "=4.6.7", features = ["derive"] }
getrandom = "=0.4.3"
hidapi = { version = "=2.6.7", default-features = false, features = ["linux-native-basic-udev"] }
hkdf = "=0.13.0"
rfd = { version = "=0.17.2", default-features = false, features = ["xdg-portal"] }
rpassword = "=7.5.4"
sdl2 = { version = "=0.38.0", features = ["ttf"] }
sha2 = "=0.11.1"
zeroize = "=1.9.1"
