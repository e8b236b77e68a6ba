[package]
name = "infrabase"
version = "0.1.0"
edition = "2021"
publish = false

[dependencies]
diesel = { version = "*", features = ["postgres", "network-address"] }
dirs = "*"
dotenv = "*"
env_logger = "*"
ipnetwork = "*"
natural_sort = "*"
structopt = "*"
tabwriter = "*"
