[package]
name = "osm_areas"
version = "0.1.0"
edition = "2021"
publish = false

[dependencies]
clap = "2"
osmpbfreader = "0.13"
rayon = "1"
