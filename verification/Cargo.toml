[package]
name = "rolldown"
version = "0.1.0"
edition = "2021"
publish = false

[dependencies]
nodejs_path = "*"
petgraph = "*"
smol_str = "*"
dashmap = "*"
crossbeam = "*"
num_cpus = "*"
swc_atoms = "*"
swc_common = "*"
swc_ecma_ast = "*"
swc_ecma_parser = "*"
swc_ecma_codegen = "*"
swc_ecma_visit = "*"
