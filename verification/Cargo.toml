[package]
name = "hsd_data_process"
version = "0.1.0"
edition = "2021"
publish = false

[dependencies]
byteorder = "1"
bzip2 = "*"
anyhow = "1"
bytemuck = "1"
memmap2 = "*"
rayon = "1"
tiff = "*"
