[package]
name = "botsim"
version = "0.1.0"
edition = "2021"
publish = false

[dependencies]
ascii_num = "=0.1.3"
axgeom = "=1.13.2"
compt = "=1.6.3"
dinotree_alg = "=0.9.0"
dists = "=0.4.2"
ordered-float = "=5.5.1"
