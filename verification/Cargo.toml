[package]
name = "abra"
version = "0.1.0"
edition = "2021"
publish = false

[dependencies]
rayon = "*"
saphyr = "*"
rand = "0.9"
once_cell = "*"
ctor = "*"
paste = "*"
image-webp = "*"
ndarray = "*"
png = "*"
ort = "2.0.0-rc.10"
