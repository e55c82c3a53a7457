pub mod node_bucket_storage;
