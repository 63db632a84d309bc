[package]
name = "site_i18n"
version = "0.1.0"
edition = "2021"
publish = false

[dependencies]
fluent-bundle = "*"
fluent-locale = "*"
unic-langid = "*"
intl-memoizer = "*"
handlebars = "*"
serde = { version = "*", features = ["derive"] }
serde_json = "*"
