[package]
name = "mir_analyzer"
version = "0.1.0"
edition = "2021"
publish = false

[dependencies]
phpdoc-parser = "*"
thiserror = "*"
php-rs-parser = "*"
php-ast = "*"
