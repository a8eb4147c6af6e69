pub mod parquet;
