[package]
name = "seam_carving"
version = "0.1.0"
edition = "2021"
publish = false

[dependencies]
image = "0.21"
stdweb = "0.4"
yew = "0.6"
