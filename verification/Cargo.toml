[package]
name = "fhcli"
version = "0.1.0"
edition = "2021"
publish = false

[dependencies]
any_ascii = "*"
rand = "*"
colored = "*"
console = "*"
diesel = { version = "*", features = ["postgres"] }
dotenv = "*"
indicatif = "*"
uuid = { version = "*", features = ["v4"] }
