[package]
name = "async_zip"
version = "0.1.0"
edition = "2021"
publish = false

[dependencies]
async-compression = { version = "=0.4.52", default-features = false, features = ["futures-io", "deflate", "bzip2", "lzma", "xz", "zstd"] }
crc32fast = "=1.5.4"
futures-lite = "=2.6.1"
thiserror = "=2.0.21"

[dev-dependencies]
zip = { version = "2", default-features = false }
