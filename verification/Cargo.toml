[package]
name = "blog_app"
version = "0.1.0"
edition = "2021"
publish = false

[dependencies]
taipei = "=0.2.0"
idyll = "=0.1.1"
idyll-styles = "*"
idyll-data = "*"
icondata_core = "=0.1.0"
tokio = { version = "=1.54.1", features = ["rt", "time", "sync", "macros", "test-util"] }
tower = { version = "=0.5.3", features = ["util"] }
