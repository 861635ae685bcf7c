[package]
name = "token_analytics_api"
version = "0.1.0"
edition = "2021"
publish = false

[dependencies]
actix-web = { version = "*", default-features = false }
anyhow = "*"
async-graphql = "*"
async-graphql-actix-web = "*"
dotenv = "*"
env_logger = "*"
redis = "*"
tracing = "*"
web3 = { version = "*", default-features = false, features = ["http"] }
