[package]
name = "zarrinc"
version = "0.1.0"
edition = "2021"
publish = false

[dependencies]
either = "1"
inkwell = { version = "0.6", default-features = false, features = ["llvm18-1-no-llvm-linking"] }
llvm-sys = { version = "181", features = ["no-llvm-linking", "disable-alltargets-init"] }
