[package]
name = "flip"
version = "0.1.0"
edition = "2021"
publish = false

[dependencies]
anyhow = "*"
atty = "*"
clap = { version = "4", features = ["derive"] }
colored = "*"
csv = "*"
docx-rs = "*"
epub-builder = "*"
indicatif = "*"
pdf_oxide = "*"
printpdf = "*"
pulldown-cmark = "*"
serde = { version = "1", features = ["derive"] }
serde_json = "1"
serde_yaml = "*"
umya-spreadsheet = "*"
zip = "*"
image = { version = "*", default-features = false, features = ["png", "jpeg", "webp", "gif", "bmp", "tiff"] }
