[package]
name = "my_no_sql_tcp_shared"
version = "0.1.0"
edition = "2021"
publish = false

[dependencies]
zip = { version = "*", default-features = false, features = ["deflate"] }
tokio = { version = "*", features = ["full"] }
