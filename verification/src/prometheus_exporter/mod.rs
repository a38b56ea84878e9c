pub mod exporter;
