[package]
name = "galos_db"
version = "0.1.0"
edition = "2021"
publish = false

[dependencies]
async-std = { version = "=1.13.2", features = ["attributes"] }
chrono = "=0.4.45"
dotenv = "=0.15.0"
elite_journal = "=0.7.0"
geozero = { version = "=0.14.0", default-features = false, features = ["with-postgis-sqlx", "with-wkb"] }
indicatif = "=0.17.11"
ordered-float = "=4.6.0"
pathfinding = "=4.16.0"
sqlx = { version = "=0.8.6", default-features = false, features = ["postgres", "runtime-async-std", "chrono", "uuid", "derive"] }
structopt = "=0.3.26"
