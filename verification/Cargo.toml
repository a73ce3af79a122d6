[package]
name = "ngram_reader"
version = "0.1.0"
edition = "2021"
publish = false

[dependencies]
regex = "1"
handlebars = "4"
rayon = "1"
