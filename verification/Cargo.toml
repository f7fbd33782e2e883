[package]
name = "adpl"
version = "0.1.0"
edition = "2021"
publish = false

[dependencies]
argh = "=0.1.19"
chumsky = { version = "=0.13.0", features = ["pratt"] }
codespan-reporting = "=0.13.1"
logos = "=0.16.1"
stacker = "=0.1.25"
symbol_table = { version = "=0.5.0", features = ["global"] }
