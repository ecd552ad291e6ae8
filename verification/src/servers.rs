pub mod replication;
