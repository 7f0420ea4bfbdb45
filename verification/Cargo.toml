[package]
name = "image_upload"
version = "0.1.0"
edition = "2021"
publish = false

[dependencies]
actix-multipart = { version = "*", default-features = false }
actix-web = { version = "4", default-features = false, features = ["macros"] }
futures = "0.3"
mime = "0.3"
sanitize-filename = "*"
